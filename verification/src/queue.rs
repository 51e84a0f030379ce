use vstd::prelude::*;

use crate::track::{track_coherent, Handle, Track, TrackInfo};

verus! {

/// Bound on the history log: the ring keeps this many finished tracks.
pub const HISTORY_LIMIT: usize = 64;

/// Why the queue refused a track.
#[derive(Clone, Copy, PartialEq, Eq, Structural, Debug)]
pub enum PlayQueueError {
    /// The queue already holds `capacity` tracks (or no fresh handle is
    /// left).
    Full,
}

/// A bounded FIFO of admitted tracks with stable handles, plus a bounded
/// history log of the tracks already handed out, newest first.
pub struct PlayQueue {
    pub upcoming: Vec<Track>,
    pub history: Vec<TrackInfo>,
    pub capacity: usize,
    pub next_handle: u64,
}

impl PlayQueue {
    /// The queue's invariant: the FIFO stays within its capacity, every held
    /// track is coherent, and every handle in sight is nonzero, below the
    /// allocation mark, and unique across the queue and the history.
    pub open spec fn wf(&self) -> bool {
        &&& self.upcoming@.len() <= self.capacity
        &&& 1 <= self.next_handle
        &&& forall|i: int|
            0 <= i < self.upcoming@.len() ==> track_coherent(
                (#[trigger] self.upcoming@[i]).models(),
            )
        &&& forall|i: int|
            0 <= i < self.upcoming@.len() ==> 1 <= (#[trigger] self.upcoming@[i]).handle.0
                < self.next_handle
        &&& forall|i: int, j: int|
            0 <= i < j < self.upcoming@.len() ==> (#[trigger] self.upcoming@[i]).handle.0 != (
            #[trigger] self.upcoming@[j]).handle.0
        &&& self.history@.len() <= HISTORY_LIMIT
        &&& forall|i: int|
            0 <= i < self.history@.len() ==> 1 <= (#[trigger] self.history@[i]).handle.0
                < self.next_handle
        &&& forall|i: int, j: int|
            0 <= i < j < self.history@.len() ==> (#[trigger] self.history@[i]).handle.0 != (
            #[trigger] self.history@[j]).handle.0
        &&& forall|i: int, j: int|
            0 <= i < self.upcoming@.len() && 0 <= j < self.history@.len() ==> (
            #[trigger] self.upcoming@[i]).handle.0 != (#[trigger] self.history@[j]).handle.0
    }

    /// An empty queue of the given capacity.
    pub fn new(capacity: usize) -> (q: PlayQueue)
        ensures
            q.wf(),
            q.upcoming@.len() == 0,
            q.history@.len() == 0,
            q.capacity == capacity,
            q.next_handle == 1,
    {
        PlayQueue { upcoming: Vec::new(), history: Vec::new(), capacity, next_handle: 1 }
    }

    /// Admits a validated track under a fresh handle, or returns `Full`
    /// without touching anything: when the FIFO is at capacity, and likewise
    /// in the marginal case that the 64-bit handle space is spent.
    pub fn add_track(&mut self, track: Track) -> (r: Result<Handle, PlayQueueError>)
        requires
            old(self).wf(),
            track_coherent(track.models()),
        ensures
            final(self).wf(),
            final(self).capacity == old(self).capacity,
            final(self).history == old(self).history,
            if old(self).upcoming@.len() == old(self).capacity || old(self).next_handle
                == u64::MAX {
                &&& r == Err::<Handle, PlayQueueError>(PlayQueueError::Full)
                &&& *final(self) == *old(self)
            } else {
                &&& r == Ok::<Handle, PlayQueueError>(Handle(old(self).next_handle))
                &&& final(self).next_handle == old(self).next_handle + 1
                &&& final(self).upcoming@.len() == old(self).upcoming@.len() + 1
                &&& forall|i: int|
                    0 <= i < old(self).upcoming@.len() ==> final(self).upcoming@[i] == old(
                        self,
                    ).upcoming@[i]
                &&& final(self).upcoming@.last().handle == (Handle(old(self).next_handle))
                &&& final(self).upcoming@.last().models() == track.models()
                &&& final(self).upcoming@.last().started_at == track.started_at
            },
    {
        if self.upcoming.len() == self.capacity || self.next_handle == u64::MAX {
            return Err(PlayQueueError::Full);
        }
        let handle = Handle(self.next_handle);
        self.next_handle = self.next_handle + 1;
        let admitted = Track { handle, pages: track.pages, started_at: track.started_at };
        proof {
            assert(admitted.models() =~= track.models());
        }
        self.upcoming.push(admitted);
        Ok(handle)
    }

    /// Removes and returns the head of the FIFO, stamping it with the given
    /// playback-start time and logging it, with its total sample count, at
    /// the front of the history.
    pub fn pop(&mut self, now: u64) -> (r: Option<Track>)
        requires
            old(self).wf(),
        ensures
            final(self).wf(),
            final(self).capacity == old(self).capacity,
            final(self).next_handle == old(self).next_handle,
            if old(self).upcoming@.len() == 0 {
                &&& r is None
                &&& *final(self) == *old(self)
            } else {
                &&& r is Some
                &&& r->Some_0.handle == old(self).upcoming@[0].handle
                &&& r->Some_0.models() == old(self).upcoming@[0].models()
                &&& r->Some_0.started_at == Some(now)
                &&& track_coherent(r->Some_0.models())
                &&& final(self).upcoming@ == old(self).upcoming@.drop_first()
                &&& final(self).history@ == (seq![
                    TrackInfo {
                        handle: old(self).upcoming@[0].handle,
                        sample_position: old(self).upcoming@[0].models().last().granule,
                        started_at: Some(now),
                    },
                ] + old(self).history@).take(
                    if old(self).history@.len() as int + 1 <= HISTORY_LIMIT {
                        old(self).history@.len() as int + 1
                    } else {
                        HISTORY_LIMIT as int
                    },
                )
            },
    {
        if self.upcoming.len() == 0 {
            return None;
        }
        let track = self.upcoming.remove(0);
        let total = track.total_samples();
        let info = TrackInfo { handle: track.handle, sample_position: total, started_at: Some(
            now,
        ) };
        self.history.insert(0, info);
        if self.history.len() > HISTORY_LIMIT {
            self.history.truncate(HISTORY_LIMIT);
        }
        let r = Track { handle: track.handle, pages: track.pages, started_at: Some(now) };
        proof {
            assert(r.models() =~= old(self).upcoming@[0].models());
            if old(self).history@.len() as int + 1 <= HISTORY_LIMIT {
                assert(self.history@ =~= (seq![info] + old(self).history@).take(
                    old(self).history@.len() as int + 1,
                ));
            } else {
                assert(self.history@ =~= (seq![info] + old(self).history@).take(
                    HISTORY_LIMIT as int,
                ));
            }
        }
        Some(r)
    }

    /// The queue-status entries of the upcoming tracks, in play order: each
    /// with its handle, no samples played yet, and its start time (none until
    /// it leaves the queue).
    pub open spec fn upcoming_infos(&self) -> Seq<TrackInfo> {
        Seq::new(
            self.upcoming@.len(),
            |i: int| TrackInfo {
                handle: self.upcoming@[i].handle,
                sample_position: 0u64,
                started_at: self.upcoming@[i].started_at,
            },
        )
    }

    /// The queue-status entries of the upcoming tracks, in play order.
    pub fn infos(&self) -> (r: Vec<TrackInfo>)
        ensures
            r@ == self.upcoming_infos(),
            r@.len() == self.upcoming@.len(),
            forall|i: int|
                0 <= i < r@.len() ==> #[trigger] r@[i] == (TrackInfo {
                    handle: self.upcoming@[i].handle,
                    sample_position: 0,
                    started_at: self.upcoming@[i].started_at,
                }),
    {
        let mut out: Vec<TrackInfo> = Vec::new();
        let mut i: usize = 0;
        while i < self.upcoming.len()
            invariant
                i <= self.upcoming@.len(),
                out@.len() == i,
                forall|j: int|
                    0 <= j < i ==> #[trigger] out@[j] == (TrackInfo {
                        handle: self.upcoming@[j].handle,
                        sample_position: 0,
                        started_at: self.upcoming@[j].started_at,
                    }),
            decreases self.upcoming@.len() - i,
        {
            out.push(self.upcoming[i].get_track_info());
            i = i + 1;
        }
        proof {
            assert(out@ =~= self.upcoming_infos());
        }
        out
    }

    /// A copy of the history log, newest first.
    pub fn get_history(&self) -> (r: Vec<TrackInfo>)
        ensures
            r@ == self.history@,
    {
        let mut out: Vec<TrackInfo> = Vec::new();
        let mut i: usize = 0;
        while i < self.history.len()
            invariant
                i <= self.history@.len(),
                out@ == self.history@.take(i as int),
            decreases self.history@.len() - i,
        {
            out.push(self.history[i]);
            i = i + 1;
            proof {
                assert(out@ =~= self.history@.take(i as int));
            }
        }
        proof {
            assert(out@ =~= self.history@);
        }
        out
    }

    /// How many tracks wait in the FIFO.
    pub fn len(&self) -> (r: usize)
        ensures
            r == self.upcoming@.len(),
    {
        self.upcoming.len()
    }
}

/// The queue bound: the FIFO never exceeds its capacity, and an admission
/// into a full queue is refused with the queue unchanged (stated by
/// [`PlayQueue::add_track`]'s contract and extracted here).
pub proof fn lemma_queue_bound(q: &PlayQueue)
    requires
        q.wf(),
    ensures
        q.upcoming@.len() <= q.capacity,
{
}

/// Handle uniqueness: no two tracks the queue has ever admitted share a
/// handle — distinct across the FIFO, the history, and between the two —
/// and handle 0 never appears among them, so it can only name the fallback
/// track.
pub proof fn lemma_handle_uniqueness(q: &PlayQueue)
    requires
        q.wf(),
    ensures
        forall|i: int, j: int|
            0 <= i < q.upcoming@.len() && 0 <= j < q.upcoming@.len() && i != j ==> (
            #[trigger] q.upcoming@[i]).handle != (#[trigger] q.upcoming@[j]).handle,
        forall|i: int, j: int|
            0 <= i < q.history@.len() && 0 <= j < q.history@.len() && i != j ==> (
            #[trigger] q.history@[i]).handle != (#[trigger] q.history@[j]).handle,
        forall|i: int, j: int|
            0 <= i < q.upcoming@.len() && 0 <= j < q.history@.len() ==> (
            #[trigger] q.upcoming@[i]).handle != (#[trigger] q.history@[j]).handle,
        forall|i: int|
            0 <= i < q.upcoming@.len() ==> (#[trigger] q.upcoming@[i]).handle != (Handle(0u64)),
        forall|i: int|
            0 <= i < q.history@.len() ==> (#[trigger] q.history@[i]).handle != (Handle(0u64)),
{
}

} // verus!
