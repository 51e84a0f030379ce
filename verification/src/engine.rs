use vstd::prelude::*;

use crate::pacer::{spec_duration_ms, Pacer};
use crate::page::{Page, PageModel};
use crate::queue::{PlayQueue, PlayQueueError};
use crate::rewrite::{meta_model, rewrite_comments, rewrite_ok, rewrite_pages};
use crate::track::{
    page_models, seq_next, spec_validate, track_coherent, validate_track, Handle, Track,
    TrackError, TrackInfo,
};

verus! {

/// Why an enqueue was refused.
#[derive(Clone, Copy, PartialEq, Eq, Structural, Debug)]
pub enum EnqueueTrackError {
    /// The track failed validation (or its comment header could not be
    /// rebuilt).
    InvalidTrack,
    /// The track names another sample rate than the engine's, or carries no
    /// identification header to name one.
    BadSampleRate,
    /// The play queue is full.
    Full,
}

/// Why a fallback replacement was refused.
#[derive(Clone, Copy, PartialEq, Eq, Structural, Debug)]
pub enum ReplaceFallbackError {
    InvalidTrack,
    BadSampleRate,
}

/// How a validation verdict surfaces to the enqueueing client.
pub open spec fn spec_admission_error(e: TrackError) -> EnqueueTrackError {
    match e {
        TrackError::MissingIdentificationHeader => EnqueueTrackError::BadSampleRate,
        TrackError::SampleRateMismatch => EnqueueTrackError::BadSampleRate,
        _ => EnqueueTrackError::InvalidTrack,
    }
}

/// How a validation verdict surfaces to the fallback-replacing client.
pub open spec fn spec_fallback_error(e: TrackError) -> ReplaceFallbackError {
    match e {
        TrackError::MissingIdentificationHeader => ReplaceFallbackError::BadSampleRate,
        TrackError::SampleRateMismatch => ReplaceFallbackError::BadSampleRate,
        _ => ReplaceFallbackError::InvalidTrack,
    }
}

/// A request to enqueue a track: its pages and, optionally, replacement
/// comment entries.
pub struct EnqueueTrackRequest {
    pub track: Vec<Page>,
    pub metadata: Option<Vec<(Vec<u8>, Vec<u8>)>>,
}

/// A request to replace the fallback track.
pub struct ReplaceFallbackRequest {
    pub track: Vec<Page>,
    pub metadata: Option<Vec<(Vec<u8>, Vec<u8>)>>,
}

/// The fast-forward kinds.
#[derive(Clone, Copy, PartialEq, Eq, Structural, Debug)]
pub enum FastForward {
    TrackBoundary,
}

/// A fast-forward request.
#[derive(Clone, Copy, PartialEq, Eq, Structural, Debug)]
pub struct FastForwardRequest {
    pub kind: FastForward,
}

/// The queue-status snapshot: what is playing and waiting, then the history,
/// newest first.
pub struct QueueStatus {
    pub upcoming: Vec<TrackInfo>,
    pub history: Vec<TrackInfo>,
}

/// What one tick produced: the page to write to the sink, and how long to
/// wait before the next tick.
pub struct TickOutcome {
    pub page: Page,
    pub delay_ms: u64,
}

/// Whether page `b` may directly follow page `a` in a well-spliced stream:
/// within a serial run the sequence number steps by one and the granule never
/// falls back; a new run (a serial change) starts at granule 0.
pub open spec fn link_ok(a: PageModel, b: PageModel) -> bool {
    if b.serial == a.serial {
        b.sequence == seq_next(a.sequence) && a.granule <= b.granule
    } else {
        b.granule == 0
    }
}

/// Every adjacent pair of the stream is linked.
pub open spec fn stream_ok(s: Seq<PageModel>) -> bool {
    forall|i: int| #![trigger s[i]] 0 < i < s.len() ==> link_ok(s[i - 1], s[i])
}

/// A stream's prefix is a stream.
pub proof fn lemma_stream_ok_prefix(s: Seq<PageModel>, n: int)
    requires
        stream_ok(s),
        0 <= n <= s.len(),
    ensures
        stream_ok(s.take(n)),
{
    let t = s.take(n);
    assert(forall|i: int| #![trigger t[i]] 0 <= i < n ==> t[i] == s[i]);
}

/// The same track under another serial.
pub open spec fn retag(s: Seq<PageModel>, serial: u32) -> Seq<PageModel> {
    Seq::new(s.len(), |i: int| s[i].with_serial(serial))
}

/// Re-tagging keeps a track coherent.
pub proof fn lemma_retag_coherent(s: Seq<PageModel>, serial: u32)
    requires
        track_coherent(s),
    ensures
        track_coherent(retag(s, serial)),
{
    let r = retag(s, serial);
    assert(forall|i: int| #![trigger r[i]] 0 <= i < r.len() ==> r[i] == s[i].with_serial(serial));
}

/// The length of the longest all-continued prefix of the buffer: the pages
/// a fast-forward must keep.
pub open spec fn cont_prefix(s: Seq<PageModel>) -> int
    decreases s.len(),
{
    if s.len() == 0 || !s[0].continued {
        0
    } else {
        1 + cont_prefix(s.drop_first())
    }
}

/// `cont_prefix` counts exactly the leading continued pages.
pub proof fn lemma_cont_prefix(s: Seq<PageModel>)
    ensures
        0 <= cont_prefix(s) <= s.len(),
        forall|j: int| 0 <= j < cont_prefix(s) ==> (#[trigger] s[j]).continued,
        cont_prefix(s) < s.len() ==> !s[cont_prefix(s)].continued,
    decreases s.len(),
{
    if s.len() > 0 && s[0].continued {
        lemma_cont_prefix(s.drop_first());
        let t = s.drop_first();
        assert forall|j: int| 0 <= j < cont_prefix(s) implies (#[trigger] s[j]).continued by {
            if j > 0 {
                assert(s[j] == t[j - 1]);
            }
        }
        if cont_prefix(s) < s.len() {
            assert(s[cont_prefix(s)] == t[cont_prefix(t)]);
        }
    }
}

/// What a fast-forward leaves in the buffer: the continued head pages, then
/// — when any page stood beyond them — the track's end-of-stream page
/// re-addressed to follow the last page the receiver saw (the last kept
/// page, else the page the `prev` fields describe).
pub open spec fn ff_buffer(ob: Seq<PageModel>, pg: u64, ps: u32, pq: u32) -> Seq<PageModel> {
    let k = cont_prefix(ob);
    if k == ob.len() {
        ob
    } else {
        let g = if k > 0 {
            ob[k - 1].granule
        } else {
            pg
        };
        let sr = if k > 0 {
            ob[k - 1].serial
        } else {
            ps
        };
        let sq = if k > 0 {
            ob[k - 1].sequence
        } else {
            pq
        };
        ob.take(k).push(ob.last().with_position(g, sr, seq_next(sq)))
    }
}

/// The splicing engine: owns all mutable streaming state and assembles the
/// continuous outbound page stream from the queue and the fallback track.
pub struct Core {
    /// The serial the next refill stamps on its track.
    pub cur_serial: u32,
    /// The emission clock.
    pub clock: Pacer,
    /// Whether the pages now buffered come from the fallback track.
    pub playing_offline: bool,
    /// Pages of the current track not yet emitted, in emission order.
    pub buffer: Vec<Page>,
    /// Granule position of the most recently emitted page.
    pub prev_ogg_granule_pos: u64,
    /// Serial of the most recently emitted page.
    pub prev_ogg_serial: u32,
    /// Sequence number of the most recently emitted page.
    pub prev_ogg_sequence: u32,
    /// The queue of admitted tracks.
    pub play_queue: PlayQueue,
    /// The fallback track, looped whenever the queue is empty.
    pub offline_track: Track,
    /// What is playing from the queue, if anything.
    pub playing: Option<TrackInfo>,
    /// The pages emitted so far, oldest first.
    pub emitted: Ghost<Seq<PageModel>>,
}

impl Core {
    /// The buffered pages' models.
    pub open spec fn buf(&self) -> Seq<PageModel> {
        page_models(self.buffer@)
    }

    /// The engine invariant, true between ticks:
    /// - the emitted pages followed by the buffered ones form one
    ///   well-spliced stream;
    /// - the `prev_ogg_*` fields are those of the last emitted page, whose
    ///   serial differs from the serial the next refill will use;
    /// - every buffered page belongs to the run now being emitted, and only
    ///   the last buffered page carries `eos`;
    /// - the queue is well formed, the fallback track coherent, and a queued
    ///   track is playing exactly when the engine is not offline.
    pub open spec fn wf(&self) -> bool {
        &&& self.clock.sample_rate > 0
        &&& self.play_queue.wf()
        &&& track_coherent(self.offline_track.models())
        &&& stream_ok(self.emitted@ + self.buf())
        &&& (self.buffer@.len() > 0 ==> self.emitted@.len() > 0)
        &&& (self.emitted@.len() > 0 ==> {
            &&& self.prev_ogg_granule_pos == self.emitted@.last().granule
            &&& self.prev_ogg_serial == self.emitted@.last().serial
            &&& self.prev_ogg_sequence == self.emitted@.last().sequence
            &&& self.prev_ogg_serial != self.cur_serial
        })
        &&& forall|i: int|
            0 <= i < self.buf().len() ==> (#[trigger] self.buf()[i]).serial
                == self.prev_ogg_serial
        &&& forall|i: int|
            0 <= i < self.buf().len() ==> ((#[trigger] self.buf()[i]).eos <==> i == self.buf().len()
                - 1)
        &&& (self.playing is Some <==> !self.playing_offline)
    }

    /// A fresh engine around a validated fallback track: nothing emitted,
    /// nothing buffered, nothing playing.
    pub fn new(sample_rate: u32, queue_capacity: usize, offline_track: Track) -> (r: Core)
        requires
            sample_rate > 0,
            track_coherent(offline_track.models()),
        ensures
            r.wf(),
            r.cur_serial == 0,
            r.clock.sample_rate == sample_rate,
            r.playing_offline,
            r.buffer@.len() == 0,
            r.emitted@.len() == 0,
            r.playing is None,
            r.play_queue.upcoming@.len() == 0,
            r.play_queue.history@.len() == 0,
            r.play_queue.capacity == queue_capacity,
            r.offline_track.models() == offline_track.models(),
    {
        Core {
            cur_serial: 0,
            clock: Pacer::new(sample_rate),
            playing_offline: true,
            buffer: Vec::new(),
            prev_ogg_granule_pos: 0,
            prev_ogg_serial: 0,
            prev_ogg_sequence: 0,
            play_queue: PlayQueue::new(queue_capacity),
            offline_track,
            playing: None,
            emitted: Ghost(Seq::empty()),
        }
    }

    /// Pulls the next track — the queue's head, else a copy of the fallback
    /// — stamps every page of it with `cur_serial`, buffers them, and rotates
    /// `cur_serial`. Private to `tick`: between the refill and the emission
    /// of the buffered head the engine invariant is deliberately in flight.
    #[verifier::loop_isolation(false)]
    #[verifier::rlimit(50)]
    fn fill_buffer(&mut self, now_ms: u64)
        requires
            old(self).wf(),
            old(self).buffer@.len() == 0,
        ensures
            final(self).clock == old(self).clock,
            final(self).emitted == old(self).emitted,
            final(self).prev_ogg_granule_pos == old(self).prev_ogg_granule_pos,
            final(self).prev_ogg_serial == old(self).prev_ogg_serial,
            final(self).prev_ogg_sequence == old(self).prev_ogg_sequence,
            final(self).cur_serial == seq_next(old(self).cur_serial),
            final(self).play_queue.wf(),
            track_coherent(final(self).offline_track.models()),
            track_coherent(final(self).buf()),
            final(self).buf().len() > 0,
            forall|i: int|
                0 <= i < final(self).buf().len() ==> (#[trigger] final(self).buf()[i]).serial
                    == old(self).cur_serial,
            forall|i: int|
                0 <= i < final(self).buf().len() ==> ((#[trigger] final(self).buf()[i]).eos <==> i
                    == final(self).buf().len() - 1),
            (final(self).playing is Some <==> !final(self).playing_offline),
            if old(self).play_queue.upcoming@.len() > 0 {
                &&& final(self).buf() == retag(
                    old(self).play_queue.upcoming@[0].models(),
                    old(self).cur_serial,
                )
                &&& !final(self).playing_offline
                &&& final(self).playing == Some(
                    TrackInfo {
                        handle: old(self).play_queue.upcoming@[0].handle,
                        sample_position: 0u64,
                        started_at: Some(now_ms),
                    },
                )
                &&& final(self).play_queue.upcoming@ == old(
                    self,
                ).play_queue.upcoming@.drop_first()
                &&& final(self).offline_track == old(self).offline_track
            } else {
                &&& final(self).buf() == retag(
                    old(self).offline_track.models(),
                    old(self).cur_serial,
                )
                &&& final(self).playing_offline
                &&& final(self).playing is None
                &&& final(self).play_queue == old(self).play_queue
                &&& final(self).offline_track == old(self).offline_track
            },
    {
        let track: Track = match self.play_queue.pop(now_ms) {
            Some(track) => {
                self.playing_offline = false;
                self.playing = Some(track.get_track_info());
                track
            },
            None => {
                self.playing_offline = true;
                self.playing = None;
                self.offline_track.clone_track()
            },
        };
        let ghost track_models = track.models();
        proof {
            assert(track_coherent(track_models));
            lemma_retag_coherent(track_models, self.cur_serial);
        }
        let serial = self.cur_serial;
        self.cur_serial = self.cur_serial.wrapping_add(1);
        proof {
            assert(self.cur_serial == seq_next(serial)) by {
                if serial == u32::MAX {
                    assert(serial.wrapping_add(1) == 0) by (bit_vector)
                        requires
                            serial == u32::MAX,
                    ;
                } else {
                    assert(serial.wrapping_add(1) == serial + 1) by (bit_vector)
                        requires
                            serial < u32::MAX,
                    ;
                }
            }
        }
        let ghost mid = *self;
        let pages = track.pages;
        let mut i: usize = 0;
        while i < pages.len()
            invariant
                i <= pages@.len(),
                track_models == page_models(pages@),
                self.buffer@.len() == i,
                forall|j: int|
                    0 <= j < i ==> (#[trigger] self.buffer@[j])@ == track_models[j].with_serial(
                        serial,
                    ),
                self.clock == mid.clock,
                self.emitted == mid.emitted,
                self.prev_ogg_granule_pos == mid.prev_ogg_granule_pos,
                self.prev_ogg_serial == mid.prev_ogg_serial,
                self.prev_ogg_sequence == mid.prev_ogg_sequence,
                self.cur_serial == mid.cur_serial,
                self.play_queue == mid.play_queue,
                self.offline_track == mid.offline_track,
                self.playing == mid.playing,
                self.playing_offline == mid.playing_offline,
            decreases pages@.len() - i,
        {
            let mut page = pages[i].copy_page();
            page.set_serial(serial);
            self.buffer.push(page);
            i = i + 1;
        }
        proof {
            assert(self.buf() =~= retag(track_models, serial));
        }
    }

    /// Hands out the next page to emit, refilling the buffer first when it
    /// has run dry. Private to `tick`, which restores the engine invariant by
    /// recording the page as emitted.
    #[verifier::rlimit(50)]
    fn get_next_page(&mut self, now_ms: u64) -> (page: Page)
        requires
            old(self).wf(),
        ensures
            final(self).clock == old(self).clock,
            final(self).emitted == old(self).emitted,
            final(self).prev_ogg_granule_pos == old(self).prev_ogg_granule_pos,
            final(self).play_queue.wf(),
            track_coherent(final(self).offline_track.models()),
            (final(self).playing is Some <==> !final(self).playing_offline),
            stream_ok(final(self).emitted@ + seq![page@] + final(self).buf()),
            page@.serial != final(self).cur_serial,
            forall|i: int|
                0 <= i < final(self).buf().len() ==> (#[trigger] final(self).buf()[i]).serial
                    == page@.serial,
            forall|i: int|
                0 <= i < final(self).buf().len() ==> ((#[trigger] final(self).buf()[i]).eos <==> i
                    == final(self).buf().len() - 1),
            if old(self).buffer@.len() > 0 {
                &&& page@ == old(self).buf()[0]
                &&& final(self).buf() == old(self).buf().drop_first()
                &&& final(self).cur_serial == old(self).cur_serial
                &&& final(self).play_queue == old(self).play_queue
                &&& final(self).playing == old(self).playing
                &&& final(self).playing_offline == old(self).playing_offline
                &&& final(self).offline_track == old(self).offline_track
            } else {
                &&& final(self).cur_serial == seq_next(old(self).cur_serial)
                &&& page@.granule == 0
                &&& if old(self).play_queue.upcoming@.len() > 0 {
                    &&& page@ == retag(
                        old(self).play_queue.upcoming@[0].models(),
                        old(self).cur_serial,
                    )[0]
                    &&& final(self).buf() == retag(
                        old(self).play_queue.upcoming@[0].models(),
                        old(self).cur_serial,
                    ).drop_first()
                    &&& !final(self).playing_offline
                    &&& final(self).playing == Some(
                        TrackInfo {
                            handle: old(self).play_queue.upcoming@[0].handle,
                            sample_position: 0u64,
                            started_at: Some(now_ms),
                        },
                    )
                    &&& final(self).play_queue.upcoming@ == old(
                        self,
                    ).play_queue.upcoming@.drop_first()
                    &&& final(self).offline_track == old(self).offline_track
                } else {
                    &&& page@ == retag(old(self).offline_track.models(), old(self).cur_serial)[0]
                    &&& final(self).buf() == retag(
                        old(self).offline_track.models(),
                        old(self).cur_serial,
                    ).drop_first()
                    &&& final(self).playing_offline
                    &&& final(self).playing is None
                    &&& final(self).play_queue == old(self).play_queue
                    &&& final(self).offline_track == old(self).offline_track
                }
            },
    {
        let ghost was_empty = self.buffer@.len() == 0;
        if self.buffer.len() == 0 {
            self.fill_buffer(now_ms);
        }
        let ghost full_buf = self.buf();
        let page = self.buffer.remove(0);
        proof {
            assert(self.buf() =~= full_buf.drop_first());
            assert(page@ == full_buf[0]);
            assert forall|i: int| 0 <= i < self.buf().len() implies (#[trigger] self.buf()[
            i]).serial == page@.serial by {
                assert(self.buf()[i] == full_buf[i + 1]);
                assert(full_buf[i + 1].serial == full_buf[0].serial);
            }
            assert forall|i: int| 0 <= i < self.buf().len() implies ((#[trigger] self.buf()[
            i]).eos <==> i == self.buf().len() - 1) by {
                assert(self.buf()[i] == full_buf[i + 1]);
                assert(full_buf[i + 1].eos <==> i + 1 == full_buf.len() - 1);
            }
            if was_empty {
                // a fresh, coherent, uniformly re-tagged track was buffered
                assert(page@.granule == 0);
                assert(seq_next(page@.serial) == self.cur_serial);
                assert(page@.serial != self.cur_serial);
                let ghost em = self.emitted@;
                assert(stream_ok(self.emitted@ + seq![page@] + self.buf())) by {
                    let whole = em + seq![page@] + self.buf();
                    assert(forall|i: int|
                        #![trigger full_buf[i]]
                        0 <= i < full_buf.len() ==> whole[em.len() + i] == full_buf[i]);
                    assert(forall|i: int| #![trigger em[i]] 0 <= i < em.len() ==> whole[i] == em[i]);
                    assert forall|i: int| #![trigger whole[i]] 0 < i < whole.len() implies link_ok(
                        whole[i - 1],
                        whole[i],
                    ) by {
                        if i < em.len() {
                            assert(link_ok(em[i - 1], em[i]));
                        } else if i == em.len() {
                            // splice point: the fresh track starts a new run at
                            // granule 0 under a serial that differs from the
                            // previous run's
                            assert(whole[i - 1] == em.last());
                            assert(whole[i] == full_buf[0]);
                            assert(full_buf[0].serial != em.last().serial);
                            assert(full_buf[0].granule == 0);
                        } else {
                            // within the fresh track: coherence links the pages
                            let j = i - em.len();
                            assert(whole[i - 1] == full_buf[j - 1]);
                            assert(whole[i] == full_buf[j]);
                        }
                    }
                    assert(self.emitted@ + seq![page@] + self.buf() =~= whole);
                }
            } else {
                assert(full_buf[0].serial == self.prev_ogg_serial);
                assert(self.emitted@.len() > 0);
                assert(page@.serial != self.cur_serial);
                assert(stream_ok(self.emitted@ + seq![page@] + self.buf())) by {
                    let whole = self.emitted@ + seq![page@] + self.buf();
                    let old_whole = self.emitted@ + full_buf;
                    assert(whole =~= old_whole);
                }
            }
        }
        page
    }

    /// Discards the buffered remainder of the current track up to and
    /// including its end-of-stream page, so that the next track begins at the
    /// next opportunity. The pages that complete an in-flight packet (the
    /// continued pages at the buffer head) are kept — truncating them would
    /// corrupt the receiver's packet assembly — and the track's `eos` page is
    /// rewritten to sit continuously against the page the receiver saw last:
    /// the last kept page, or, when none is kept, the last emitted page. Every
    /// admitted track ends in an `eos` page, so when any page is dropped the
    /// search finds one.
    #[verifier::loop_isolation(false)]
    #[verifier::rlimit(60)]
    pub fn fast_forward_track_boundary(&mut self)
        requires
            old(self).wf(),
        ensures
            final(self).wf(),
            final(self).emitted == old(self).emitted,
            final(self).cur_serial == old(self).cur_serial,
            final(self).clock == old(self).clock,
            final(self).prev_ogg_granule_pos == old(self).prev_ogg_granule_pos,
            final(self).prev_ogg_serial == old(self).prev_ogg_serial,
            final(self).prev_ogg_sequence == old(self).prev_ogg_sequence,
            final(self).play_queue == old(self).play_queue,
            final(self).offline_track == old(self).offline_track,
            final(self).playing == old(self).playing,
            final(self).playing_offline == old(self).playing_offline,
            final(self).buf() == ff_buffer(
                old(self).buf(),
                old(self).prev_ogg_granule_pos,
                old(self).prev_ogg_serial,
                old(self).prev_ogg_sequence,
            ),
    {
        let ghost ob = self.buf();
        proof {
            lemma_cont_prefix(ob);
            assert(ob == old(self).buf());
            assert(forall|j: int|
                0 <= j < ob.len() ==> #[trigger] ob[j] == self.buffer@[j]@);
        }
        // keep the continued pages at the head: they finish a packet the
        // receiver has already begun
        let mut k: usize = 0;
        while k < self.buffer.len() && self.buffer[k].continued
            invariant
                k <= self.buffer@.len(),
                forall|j: int| 0 <= j < k ==> (#[trigger] ob[j]).continued,
            decreases self.buffer@.len() - k,
        {
            proof {
                assert(ob[k as int] == self.buffer@[k as int]@);
            }
            k = k + 1;
        }
        proof {
            if (k as int) < ob.len() {
                assert(ob[k as int] == self.buffer@[k as int]@);
                assert(!ob[k as int].continued);
            }
            assert(k as int == cont_prefix(ob));
        }
        if k == self.buffer.len() {
            return ;
        }
        // from the first page-aligned packet onward, everything up to the
        // track's end-of-stream page is dropped; find that page (validation
        // guarantees it closes the buffered track)
        let mut e: usize = k;
        while !self.buffer[e].eos
            invariant
                k <= e < self.buffer@.len(),
            decreases self.buffer@.len() - e,
        {
            proof {
                assert(ob[e as int] == self.buffer@[e as int]@);
                assert(ob[e as int].eos <==> e as int == ob.len() - 1);
            }
            e = e + 1;
        }
        proof {
            assert(ob[e as int].eos);
            assert(e as int == ob.len() - 1);
        }
        // rewrite the end-of-stream page to continue the receiver's stream
        let (g, sr, sq) = if k > 0 {
            let base = &self.buffer[k - 1];
            (base.granule, base.serial, base.sequence)
        } else {
            (self.prev_ogg_granule_pos, self.prev_ogg_serial, self.prev_ogg_sequence)
        };
        let nseq: u32 = if sq == u32::MAX {
            0
        } else {
            sq + 1
        };
        let mut eos_page = self.buffer[e].copy_page();
        eos_page.set_position_fields(g, sr, nseq);
        self.buffer.truncate(k);
        self.buffer.push(eos_page);
        proof {
            let nb = self.buf();
            let eosm = ob.last().with_position(g, sr, seq_next(sq));
            assert(nb =~= ob.take(k as int).push(eosm));
            assert forall|i: int| 0 <= i < nb.len() implies (#[trigger] nb[i]).serial == old(
                self,
            ).prev_ogg_serial by {
                if i < k {
                    assert(nb[i] == ob[i]);
                } else {
                    assert(nb[i] == eosm);
                    if k > 0 {
                        assert(ob[k - 1].serial == old(self).prev_ogg_serial);
                    }
                }
            }
            assert forall|i: int| 0 <= i < nb.len() implies ((#[trigger] nb[i]).eos <==> i
                == nb.len() - 1) by {
                if i < k {
                    assert(nb[i] == ob[i]);
                    assert(ob[i].eos <==> i == ob.len() - 1);
                } else {
                    assert(nb[i] == eosm);
                }
            }
            let em = self.emitted@;
            assert(stream_ok(em + nb)) by {
                let whole = em + nb;
                let old_whole = em + ob;
                assert(forall|i: int| #![trigger whole[i]] 0 <= i < em.len() ==> whole[i] == em[i]);
                assert(forall|i: int|
                    #![trigger nb[i]]
                    0 <= i < nb.len() ==> whole[em.len() + i] == nb[i]);
                assert(forall|i: int|
                    #![trigger ob[i]]
                    0 <= i < ob.len() ==> old_whole[em.len() + i] == ob[i]);
                assert forall|i: int| #![trigger whole[i]] 0 < i < whole.len() implies link_ok(
                    whole[i - 1],
                    whole[i],
                ) by {
                    if i < em.len() + k {
                        assert(whole[i] == old_whole[i]);
                        assert(whole[i - 1] == old_whole[i - 1]);
                        assert(link_ok(old_whole[i - 1], old_whole[i]));
                    } else {
                        // the rewritten end-of-stream page continues the last
                        // page the receiver saw
                        assert(i == em.len() + k);
                        assert(whole[i] == eosm);
                        if k > 0 {
                            assert(whole[i - 1] == ob[k - 1]);
                        } else {
                            assert(whole[i - 1] == em.last());
                        }
                    }
                }
            }
        }
    }

    /// Performs the requested fast-forward; the one kind skips to the track
    /// boundary.
    pub fn fast_forward(&mut self, req: FastForwardRequest)
        requires
            old(self).wf(),
        ensures
            final(self).wf(),
            final(self).emitted == old(self).emitted,
            final(self).cur_serial == old(self).cur_serial,
            final(self).clock == old(self).clock,
            final(self).prev_ogg_granule_pos == old(self).prev_ogg_granule_pos,
            final(self).prev_ogg_serial == old(self).prev_ogg_serial,
            final(self).prev_ogg_sequence == old(self).prev_ogg_sequence,
            final(self).play_queue == old(self).play_queue,
            final(self).offline_track == old(self).offline_track,
            final(self).playing == old(self).playing,
            final(self).playing_offline == old(self).playing_offline,
            final(self).buf() == ff_buffer(
                old(self).buf(),
                old(self).prev_ogg_granule_pos,
                old(self).prev_ogg_serial,
                old(self).prev_ogg_sequence,
            ),
    {
        match req.kind {
            FastForward::TrackBoundary => {
                self.fast_forward_track_boundary();
            },
        }
    }

    /// Emits one page: pulls it from the buffer (refilling first if needed),
    /// records it as the most recently emitted page, advances the playing
    /// track's sample position to the page's granule, and returns the page
    /// together with the time to wait before the next tick. The caller writes
    /// the page to the sink and sleeps.
    #[verifier::spinoff_prover]
    #[verifier::rlimit(100)]
    pub fn tick(&mut self, now_ms: u64) -> (out: TickOutcome)
        requires
            old(self).wf(),
        ensures
            final(self).wf(),
            final(self).emitted@ == old(self).emitted@.push(out.page@),
            stream_ok(final(self).emitted@),
            final(self).prev_ogg_granule_pos == out.page@.granule,
            final(self).prev_ogg_serial == out.page@.serial,
            final(self).prev_ogg_sequence == out.page@.sequence,
            final(self).clock == old(self).clock,
            out.delay_ms == spec_duration_ms(
                out.page@.granule,
                old(self).prev_ogg_granule_pos,
                old(self).clock.sample_rate,
            ),
            final(self).playing is Some ==> final(self).playing->Some_0.sample_position
                == out.page@.granule,
            final(self).offline_track == old(self).offline_track,
            if old(self).buffer@.len() > 0 {
                &&& out.page@ == old(self).buf()[0]
                &&& final(self).buf() == old(self).buf().drop_first()
                &&& final(self).cur_serial == old(self).cur_serial
                &&& final(self).play_queue == old(self).play_queue
                &&& final(self).playing_offline == old(self).playing_offline
            } else {
                &&& final(self).cur_serial == seq_next(old(self).cur_serial)
                &&& out.page@.granule == 0
                &&& if old(self).play_queue.upcoming@.len() > 0 {
                    &&& out.page@ == retag(
                        old(self).play_queue.upcoming@[0].models(),
                        old(self).cur_serial,
                    )[0]
                    &&& final(self).buf() == retag(
                        old(self).play_queue.upcoming@[0].models(),
                        old(self).cur_serial,
                    ).drop_first()
                    &&& !final(self).playing_offline
                    &&& final(self).play_queue.upcoming@ == old(
                        self,
                    ).play_queue.upcoming@.drop_first()
                } else {
                    &&& out.page@ == retag(old(self).offline_track.models(), old(self).cur_serial)[0]
                    &&& final(self).buf() == retag(
                        old(self).offline_track.models(),
                        old(self).cur_serial,
                    ).drop_first()
                    &&& final(self).playing_offline
                    &&& final(self).play_queue == old(self).play_queue
                }
            },
    {
        let page = self.get_next_page(now_ms);
        let delay_ms = self.clock.duration_until_next(page.granule, self.prev_ogg_granule_pos);
        self.prev_ogg_granule_pos = page.granule;
        self.prev_ogg_serial = page.serial;
        self.prev_ogg_sequence = page.sequence;
        proof {
            self.emitted@ = self.emitted@.push(page@);
        }
        match self.playing {
            Some(info) => {
                self.playing = Some(
                    TrackInfo {
                        handle: info.handle,
                        sample_position: page.granule,
                        started_at: info.started_at,
                    },
                );
            },
            None => {},
        }
        proof {
            let whole = old(self).emitted@ + seq![page@] + self.buf();
            assert(self.emitted@ =~= whole.take(old(self).emitted@.len() as int + 1));
            lemma_stream_ok_prefix(whole, old(self).emitted@.len() as int + 1);
            assert(self.emitted@ + self.buf() =~= whole);
            assert(self.emitted@.last() == page@);
        }
        TickOutcome { page, delay_ms }
    }
}

impl Core {
    /// Validates, rewrites, and admits a client track. On success, when the
    /// engine was playing the fallback, the buffered fallback remainder is
    /// fast-forwarded so the new track begins at the next opportunity. On any
    /// refusal the engine is untouched.
    #[verifier::rlimit(60)]
    pub fn enqueue_track(&mut self, req: EnqueueTrackRequest) -> (r: Result<
        Handle,
        EnqueueTrackError,
    >)
        requires
            old(self).wf(),
        ensures
            final(self).wf(),
            final(self).emitted == old(self).emitted,
            final(self).clock == old(self).clock,
            final(self).cur_serial == old(self).cur_serial,
            final(self).prev_ogg_granule_pos == old(self).prev_ogg_granule_pos,
            final(self).prev_ogg_serial == old(self).prev_ogg_serial,
            final(self).prev_ogg_sequence == old(self).prev_ogg_sequence,
            final(self).offline_track == old(self).offline_track,
            final(self).playing == old(self).playing,
            final(self).playing_offline == old(self).playing_offline,
            ({
                let s = page_models(req.track@);
                let meta = meta_model(&req.metadata);
                let q = old(self).play_queue;
                match spec_validate(s, old(self).clock.sample_rate) {
                    Some(e) => {
                        &&& r == Err::<Handle, EnqueueTrackError>(spec_admission_error(e))
                        &&& final(self).play_queue == q
                        &&& final(self).buf() == old(self).buf()
                    },
                    None => if !rewrite_ok(meta) {
                        &&& r == Err::<Handle, EnqueueTrackError>(EnqueueTrackError::InvalidTrack)
                        &&& final(self).play_queue == q
                        &&& final(self).buf() == old(self).buf()
                    } else if q.upcoming@.len() == q.capacity || q.next_handle == u64::MAX {
                        &&& r == Err::<Handle, EnqueueTrackError>(EnqueueTrackError::Full)
                        &&& final(self).play_queue == q
                        &&& final(self).buf() == old(self).buf()
                    } else {
                        &&& r == Ok::<Handle, EnqueueTrackError>(Handle(q.next_handle))
                        &&& final(self).play_queue.upcoming@.len() == q.upcoming@.len() + 1
                        &&& forall|i: int|
                            0 <= i < q.upcoming@.len() ==> final(self).play_queue.upcoming@[i]
                                == q.upcoming@[i]
                        &&& final(self).play_queue.upcoming@.last().handle == (Handle(
                            q.next_handle,
                        ))
                        &&& final(self).play_queue.upcoming@.last().models() == rewrite_pages(
                            s,
                            meta,
                        )
                        &&& final(self).play_queue.next_handle == q.next_handle + 1
                        &&& final(self).play_queue.history == q.history
                        &&& final(self).buf() == if old(self).playing_offline {
                            ff_buffer(
                                old(self).buf(),
                                old(self).prev_ogg_granule_pos,
                                old(self).prev_ogg_serial,
                                old(self).prev_ogg_sequence,
                            )
                        } else {
                            old(self).buf()
                        }
                    },
                }
            }),
    {
        let EnqueueTrackRequest { track, metadata } = req;
        let ghost s = page_models(track@);
        let ghost meta = meta_model(&metadata);
        let t = match validate_track(track, self.clock.sample_rate()) {
            Ok(t) => t,
            Err(e) => {
                return Err(admission_error(e));
            },
        };
        proof {
            crate::track::lemma_accepted_track_coherent(s, self.clock.sample_rate);
        }
        let rewritten = match rewrite_comments(&t.pages, &metadata) {
            Some(p) => p,
            None => {
                return Err(EnqueueTrackError::InvalidTrack);
            },
        };
        proof {
            crate::rewrite::lemma_rewrite_preserves_coherent(s, meta);
        }
        let cooked = Track { handle: Handle(0), pages: rewritten, started_at: None };
        let handle = match self.play_queue.add_track(cooked) {
            Ok(h) => h,
            Err(PlayQueueError::Full) => {
                return Err(EnqueueTrackError::Full);
            },
        };
        if self.playing_offline {
            self.fast_forward_track_boundary();
        }
        Ok(handle)
    }

    /// Validates and rewrites a replacement fallback track and installs it.
    /// The buffered pages are untouched: a fallback loop now playing finishes;
    /// the next refill uses the new track.
    pub fn replace_fallback(&mut self, req: ReplaceFallbackRequest) -> (r: Result<
        (),
        ReplaceFallbackError,
    >)
        requires
            old(self).wf(),
        ensures
            final(self).wf(),
            final(self).emitted == old(self).emitted,
            final(self).clock == old(self).clock,
            final(self).cur_serial == old(self).cur_serial,
            final(self).prev_ogg_granule_pos == old(self).prev_ogg_granule_pos,
            final(self).prev_ogg_serial == old(self).prev_ogg_serial,
            final(self).prev_ogg_sequence == old(self).prev_ogg_sequence,
            final(self).play_queue == old(self).play_queue,
            final(self).playing == old(self).playing,
            final(self).playing_offline == old(self).playing_offline,
            final(self).buf() == old(self).buf(),
            ({
                let s = page_models(req.track@);
                let meta = meta_model(&req.metadata);
                match spec_validate(s, old(self).clock.sample_rate) {
                    Some(e) => {
                        &&& r == Err::<(), ReplaceFallbackError>(spec_fallback_error(e))
                        &&& final(self).offline_track == old(self).offline_track
                    },
                    None => if !rewrite_ok(meta) {
                        &&& r == Err::<(), ReplaceFallbackError>(ReplaceFallbackError::InvalidTrack)
                        &&& final(self).offline_track == old(self).offline_track
                    } else {
                        &&& r == Ok::<(), ReplaceFallbackError>(())
                        &&& final(self).offline_track.models() == rewrite_pages(s, meta)
                        &&& final(self).offline_track.handle == (Handle(0u64))
                    },
                }
            }),
    {
        let ReplaceFallbackRequest { track, metadata } = req;
        let ghost s = page_models(track@);
        let ghost meta = meta_model(&metadata);
        let t = match validate_track(track, self.clock.sample_rate()) {
            Ok(t) => t,
            Err(e) => {
                return Err(fallback_error(e));
            },
        };
        proof {
            crate::track::lemma_accepted_track_coherent(s, self.clock.sample_rate);
        }
        let rewritten = match rewrite_comments(&t.pages, &metadata) {
            Some(p) => p,
            None => {
                return Err(ReplaceFallbackError::InvalidTrack);
            },
        };
        proof {
            crate::rewrite::lemma_rewrite_preserves_coherent(s, meta);
        }
        self.offline_track = Track { handle: Handle(0), pages: rewritten, started_at: None };
        Ok(())
    }

    /// A snapshot of the queue: what is playing (if anything) followed by the
    /// waiting tracks, and the history, newest first.
    pub fn queue_status(&self) -> (r: QueueStatus)
        ensures
            r.history@ == self.play_queue.history@,
            r.upcoming@ == match self.playing {
                Some(p) => seq![p] + self.play_queue.upcoming_infos(),
                None => self.play_queue.upcoming_infos(),
            },
    {
        let mut upcoming: Vec<TrackInfo> = Vec::new();
        match self.playing {
            Some(p) => {
                upcoming.push(p);
            },
            None => {},
        }
        let mut rest = self.play_queue.infos();
        upcoming.append(&mut rest);
        proof {
            match self.playing {
                Some(p) => {
                    assert(upcoming@ =~= seq![p] + self.play_queue.upcoming_infos());
                },
                None => {
                    assert(upcoming@ =~= self.play_queue.upcoming_infos());
                },
            }
        }
        QueueStatus { upcoming, history: self.play_queue.get_history() }
    }
}

/// How a validation verdict surfaces to the enqueueing client.
fn admission_error(e: TrackError) -> (r: EnqueueTrackError)
    ensures
        r == spec_admission_error(e),
{
    match e {
        TrackError::MissingIdentificationHeader => EnqueueTrackError::BadSampleRate,
        TrackError::SampleRateMismatch => EnqueueTrackError::BadSampleRate,
        _ => EnqueueTrackError::InvalidTrack,
    }
}

/// How a validation verdict surfaces to the fallback-replacing client.
fn fallback_error(e: TrackError) -> (r: ReplaceFallbackError)
    ensures
        r == spec_fallback_error(e),
{
    match e {
        TrackError::MissingIdentificationHeader => ReplaceFallbackError::BadSampleRate,
        TrackError::SampleRateMismatch => ReplaceFallbackError::BadSampleRate,
        _ => ReplaceFallbackError::InvalidTrack,
    }
}

/// Emitted pages stand where the invariant's stream puts them.
proof fn lemma_emitted_indexing(c: &Core)
    ensures
        forall|i: int|
            0 <= i < c.emitted@.len() ==> (c.emitted@ + c.buf())[i] == #[trigger] c.emitted@[i],
{
}

/// Monotone granule within a run: between two emitted pages of one
/// uninterrupted serial run, the granule position never decreases.
pub proof fn lemma_granule_monotone_in_run(c: &Core, i: int, j: int)
    requires
        c.wf(),
        0 <= i <= j < c.emitted@.len(),
        forall|k: int| i <= k <= j ==> (#[trigger] c.emitted@[k]).serial == c.emitted@[i].serial,
    ensures
        c.emitted@[i].granule <= c.emitted@[j].granule,
    decreases j - i,
{
    if i < j {
        lemma_emitted_indexing(c);
        let whole = c.emitted@ + c.buf();
        assert(link_ok(whole[j - 1], whole[j]));
        assert(c.emitted@[j - 1].serial == c.emitted@[i].serial);
        assert(c.emitted@[j].serial == c.emitted@[i].serial);
        lemma_granule_monotone_in_run(c, i, j - 1);
    }
}

/// A new run starts at granule 0: an emitted page whose serial differs from
/// the page before it is the first page of a fresh track.
pub proof fn lemma_run_starts_at_zero(c: &Core, i: int)
    requires
        c.wf(),
        0 < i < c.emitted@.len(),
        c.emitted@[i].serial != c.emitted@[i - 1].serial,
    ensures
        c.emitted@[i].granule == 0,
{
    lemma_emitted_indexing(c);
    let whole = c.emitted@ + c.buf();
    assert(link_ok(whole[i - 1], whole[i]));
}

/// Sequence continuity within a run: consecutive emitted pages with equal
/// serial carry consecutive sequence numbers.
pub proof fn lemma_sequence_continuity(c: &Core, i: int)
    requires
        c.wf(),
        0 < i < c.emitted@.len(),
        c.emitted@[i].serial == c.emitted@[i - 1].serial,
    ensures
        c.emitted@[i].sequence == seq_next(c.emitted@[i - 1].sequence),
{
    lemma_emitted_indexing(c);
    let whole = c.emitted@ + c.buf();
    assert(link_ok(whole[i - 1], whole[i]));
}

/// Serial rotation: the serial the next refill will stamp differs from the
/// serial of everything still buffered and of the page emitted last — each
/// track is presented as a fresh logical bitstream.
pub proof fn lemma_serial_rotation(c: &Core)
    requires
        c.wf(),
    ensures
        forall|i: int|
            0 <= i < c.buf().len() ==> (#[trigger] c.buf()[i]).serial != c.cur_serial,
        c.emitted@.len() > 0 ==> c.emitted@.last().serial != c.cur_serial,
{
}

} // verus!
