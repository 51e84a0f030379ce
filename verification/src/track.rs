use vstd::prelude::*;

use crate::page::{copy_packets, Page, PageModel};
use crate::vorbis::{
    find_ident_rate_pages, has_comment_prefix, ident_rate, is_comment_packet, is_ident_packet,
};

verus! {

/// Identifies an admitted track. Handle 0 is reserved for the fallback
/// track; the play queue allocates the others, monotonically and never
/// reused.
#[derive(Clone, Copy, PartialEq, Eq, Structural, Debug, Hash)]
pub struct Handle(pub u64);

/// What the queue reports about a track: its handle, the number of samples
/// played so far, and when playback started (a caller-supplied clock value;
/// `None` until the track leaves the queue).
#[derive(Clone, Copy, PartialEq, Eq, Structural, Debug)]
pub struct TrackInfo {
    pub handle: Handle,
    pub sample_position: u64,
    pub started_at: Option<u64>,
}

/// An admitted track: its handle and its pages, in emission order.
pub struct Track {
    pub handle: Handle,
    pub pages: Vec<Page>,
    pub started_at: Option<u64>,
}

/// The page models of a page list.
pub open spec fn page_models(pages: Seq<Page>) -> Seq<PageModel> {
    Seq::new(pages.len(), |i: int| pages[i]@)
}

/// The wrapping successor of a page sequence number.
pub open spec fn seq_next(x: u32) -> u32 {
    if x == u32::MAX {
        0
    } else {
        (x + 1) as u32
    }
}

/// The structural page-chain shape every track must have: one logical
/// bitstream that begins on its first page and ends on its last, under a
/// single serial, with contiguous sequence numbers.
pub open spec fn shape_ok(s: Seq<PageModel>) -> bool {
    &&& s.len() > 0
    &&& !s[0].continued
    &&& forall|i: int| #![trigger s[i]] 0 <= i < s.len() ==> (s[i].bos <==> i == 0)
    &&& forall|i: int| #![trigger s[i]] 0 <= i < s.len() ==> (s[i].eos <==> i == s.len() - 1)
    &&& forall|i: int| #![trigger s[i]] 0 < i < s.len() ==> s[i].serial == s[0].serial
    &&& forall|i: int| #![trigger s[i]] 0 < i < s.len() ==> s[i].sequence == seq_next(
        s[i - 1].sequence,
    )
}

/// Granule positions never decrease along the track.
pub open spec fn granules_monotone(s: Seq<PageModel>) -> bool {
    forall|i: int| #![trigger s[i]] 0 < i < s.len() ==> s[i - 1].granule <= s[i].granule
}

/// A track the engine may buffer: well shaped, starting at granule 0, with
/// granules never decreasing.
pub open spec fn track_coherent(s: Seq<PageModel>) -> bool {
    &&& shape_ok(s)
    &&& s[0].granule == 0
    &&& granules_monotone(s)
}

impl Track {
    /// The page models of this track.
    pub open spec fn models(&self) -> Seq<PageModel> {
        page_models(self.pages@)
    }

    /// A deep copy with the same model.
    pub fn clone_track(&self) -> (r: Track)
        ensures
            r.handle == self.handle,
            r.started_at == self.started_at,
            r.models() == self.models(),
    {
        let mut pages: Vec<Page> = Vec::new();
        let mut i: usize = 0;
        while i < self.pages.len()
            invariant
                i <= self.pages.len(),
                pages@.len() == i,
                forall|j: int| 0 <= j < i ==> pages@[j]@ == self.pages@[j]@,
            decreases self.pages.len() - i,
        {
            pages.push(self.pages[i].copy_page());
            i = i + 1;
        }
        let r = Track { handle: self.handle, pages, started_at: self.started_at };
        proof {
            assert(r.models() =~= self.models());
        }
        r
    }

    /// The queue-status entry for this track before any of it has played.
    pub fn get_track_info(&self) -> (r: TrackInfo)
        ensures
            r == (TrackInfo {
                handle: self.handle,
                sample_position: 0,
                started_at: self.started_at,
            }),
    {
        TrackInfo { handle: self.handle, sample_position: 0, started_at: self.started_at }
    }

    /// The total sample count of the track: the granule position of its last
    /// page.
    pub fn total_samples(&self) -> (r: u64)
        ensures
            r == if self.models().len() == 0 {
                0u64
            } else {
                self.models().last().granule
            },
    {
        if self.pages.len() == 0 {
            0
        } else {
            self.pages[self.pages.len() - 1].granule
        }
    }
}

// ---------------------------------------------------------------------------
// Validation
// ---------------------------------------------------------------------------

/// Why a submitted track was rejected.
#[derive(Clone, Copy, PartialEq, Eq, Structural, Debug)]
pub enum TrackError {
    /// The submission holds no pages.
    EmptyInput,
    /// The page chain is not one well-shaped logical bitstream, or a comment
    /// header site exists but cannot be rebuilt as a single whole packet.
    MalformedFraming,
    /// A granule position decreases along the track.
    NonMonotonicGranule,
    /// The first page does not start at granule 0.
    FirstPageGranuleNonZero,
    /// No packet parses as a Vorbis comment header.
    MissingCommentHeader,
    /// No packet is a Vorbis identification header.
    MissingIdentificationHeader,
    /// The identification header names another sample rate than the engine's.
    SampleRateMismatch,
}

/// Some packet of some page parses as a comment header.
pub open spec fn has_comment_site(s: Seq<PageModel>) -> bool {
    exists|i: int, j: int|
        0 <= i < s.len() && 0 <= j < s[i].packets.len() && is_comment_packet(#[trigger] s[i].packets[j])
}

/// Some packet of some page carries the comment-header prefix, whether or
/// not it parses whole.
pub open spec fn has_comment_shaped_packet(s: Seq<PageModel>) -> bool {
    exists|i: int, j: int|
        0 <= i < s.len() && 0 <= j < s[i].packets.len() && has_comment_prefix(
            #[trigger] s[i].packets[j],
        )
}

/// The validator's verdict, in its checking order: emptiness, page-chain
/// shape, the granule rules, the identification header and its sample rate,
/// and the comment header. `None` is acceptance.
pub open spec fn spec_validate(s: Seq<PageModel>, sample_rate: u32) -> Option<TrackError> {
    if s.len() == 0 {
        Some(TrackError::EmptyInput)
    } else if !shape_ok(s) {
        Some(TrackError::MalformedFraming)
    } else if s[0].granule != 0 {
        Some(TrackError::FirstPageGranuleNonZero)
    } else if !granules_monotone(s) {
        Some(TrackError::NonMonotonicGranule)
    } else if find_ident_rate_pages(s) is None {
        Some(TrackError::MissingIdentificationHeader)
    } else if find_ident_rate_pages(s) != Some(sample_rate) {
        Some(TrackError::SampleRateMismatch)
    } else if has_comment_site(s) {
        None
    } else if has_comment_shaped_packet(s) {
        Some(TrackError::MalformedFraming)
    } else {
        Some(TrackError::MissingCommentHeader)
    }
}

/// An accepted track is coherent.
pub proof fn lemma_accepted_track_coherent(s: Seq<PageModel>, sample_rate: u32)
    requires
        spec_validate(s, sample_rate) is None,
    ensures
        track_coherent(s),
{
}

/// Checks the structural page-chain shape.
fn check_shape(pages: &Vec<Page>) -> (r: bool)
    requires
        pages@.len() > 0,
    ensures
        r == shape_ok(page_models(pages@)),
{
    let ghost s = page_models(pages@);
    proof {
        assert(forall|j: int| 0 <= j < s.len() ==> #[trigger] s[j] == pages@[j]@);
    }
    if pages[0].continued || !pages[0].bos {
        return false;
    }
    let n = pages.len();
    if pages[0].eos != (n == 1) {
        return false;
    }
    let serial = pages[0].serial;
    let mut i: usize = 1;
    while i < n
        invariant
            1 <= i <= n,
            n == pages@.len(),
            s == page_models(pages@),
            serial == s[0].serial,
            !s[0].continued,
            s[0].bos,
            forall|j: int| 0 <= j < s.len() ==> #[trigger] s[j] == pages@[j]@,
            forall|j: int| #![trigger s[j]] 0 < j < i ==> !s[j].bos,
            forall|j: int| #![trigger s[j]] 0 <= j < i ==> (s[j].eos <==> j == n - 1),
            forall|j: int| #![trigger s[j]] 0 < j < i ==> s[j].serial == serial,
            forall|j: int| #![trigger s[j]] 0 < j < i ==> s[j].sequence == seq_next(
                s[j - 1].sequence,
            ),
        decreases n - i,
    {
        let p = &pages[i];
        proof {
            assert(s[i as int] == pages@[i as int]@);
        }
        if p.bos {
            proof {
                assert(s[i as int].bos && i as int != 0);
            }
            return false;
        }
        if p.eos != (i == n - 1) {
            proof {
                assert(!(s[i as int].eos <==> i as int == n - 1));
            }
            return false;
        }
        if p.serial != serial {
            proof {
                assert(s[i as int].serial != s[0].serial);
            }
            return false;
        }
        let prev_seq = pages[i - 1].sequence;
        let expected: u32 = if prev_seq == u32::MAX {
            0
        } else {
            prev_seq + 1
        };
        if p.sequence != expected {
            proof {
                assert(s[i as int].sequence != seq_next(s[i as int - 1].sequence));
            }
            return false;
        }
        i = i + 1;
    }
    true
}

/// Checks that granules start at zero and never decrease.
pub fn validate_positions(pages: &Vec<Page>) -> (r: Result<(), TrackError>)
    requires
        pages@.len() > 0,
    ensures
        ({
            let s = page_models(pages@);
            match r {
                Ok(()) => s[0].granule == 0 && granules_monotone(s),
                Err(e) => (e == TrackError::FirstPageGranuleNonZero && s[0].granule != 0) || (e
                    == TrackError::NonMonotonicGranule && s[0].granule == 0
                    && !granules_monotone(s)),
            }
        }),
{
    let ghost s = page_models(pages@);
    proof {
        assert(forall|j: int| 0 <= j < s.len() ==> #[trigger] s[j] == pages@[j]@);
    }
    if pages[0].granule != 0 {
        return Err(TrackError::FirstPageGranuleNonZero);
    }
    let mut i: usize = 1;
    while i < pages.len()
        invariant
            1 <= i <= pages@.len(),
            s == page_models(pages@),
            s[0].granule == 0,
            forall|j: int| 0 <= j < s.len() ==> #[trigger] s[j] == pages@[j]@,
            forall|j: int| #![trigger s[j]] 0 < j < i ==> s[j - 1].granule <= s[j].granule,
        decreases pages@.len() - i,
    {
        if pages[i].granule < pages[i - 1].granule {
            proof {
                assert(s[i as int].granule < s[i as int - 1].granule);
            }
            return Err(TrackError::NonMonotonicGranule);
        }
        i = i + 1;
    }
    Ok(())
}

/// Finds the sample rate of the first identification header, scanning pages
/// and packets in order.
pub fn check_identification(pages: &Vec<Page>) -> (r: Option<u32>)
    ensures
        r == find_ident_rate_pages(page_models(pages@)),
{
    let ghost s = page_models(pages@);
    proof {
        assert(s.skip(0) =~= s);
    }
    let mut i: usize = 0;
    while i < pages.len()
        invariant
            i <= pages@.len(),
            s == page_models(pages@),
            find_ident_rate_pages(s) == find_ident_rate_pages(s.skip(i as int)),
        decreases pages@.len() - i,
    {
        let pk = &pages[i].packets;
        let ghost ms = s.skip(i as int);
        proof {
            assert(ms[0] == s[i as int]);
            assert(s[i as int] == pages@[i as int]@);
            assert(ms[0].packets.skip(0) =~= ms[0].packets);
        }
        let mut j: usize = 0;
        while j < pk.len()
            invariant
                j <= pk@.len(),
                i < pages@.len(),
                s == page_models(pages@),
                ms == s.skip(i as int),
                pk@ == pages@[i as int].packets@,
                ms[0].packets == pages@[i as int].packets.deep_view(),
                find_ident_rate_pages(s) == find_ident_rate_pages(ms),
                crate::vorbis::find_ident_rate_packets(ms[0].packets)
                    == crate::vorbis::find_ident_rate_packets(ms[0].packets.skip(j as int)),
            decreases pk@.len() - j,
        {
            proof {
                assert(ms[0].packets[j as int] == pk@[j as int].deep_view());
                assert(pk@[j as int].deep_view() =~= pk@[j as int]@);
            }
            match crate::vorbis::identification_rate(&pk[j]) {
                Some(rate) => {
                    proof {
                        let tail = ms[0].packets.skip(j as int);
                        assert(tail[0] == ms[0].packets[j as int]);
                        assert(is_ident_packet(tail[0]));
                        assert(ident_rate(tail[0]) == ident_rate(ms[0].packets[j as int]));
                        assert(crate::vorbis::find_ident_rate_packets(tail) == Some(rate)) by {
                            assert(tail[0].subrange(12, 16) =~= ms[0].packets[
                            j as int].subrange(12, 16));
                        }
                    }
                    return Some(rate);
                },
                None => {
                    proof {
                        let tail = ms[0].packets.skip(j as int);
                        assert(tail[0] == ms[0].packets[j as int]);
                        assert(tail.skip(1) =~= ms[0].packets.skip(j as int + 1));
                    }
                },
            }
            j = j + 1;
        }
        proof {
            assert(ms[0].packets.skip(j as int) =~= Seq::<Seq<u8>>::empty());
            assert(crate::vorbis::find_ident_rate_packets(ms[0].packets) is None);
            assert(ms.skip(1) =~= s.skip(i as int + 1));
        }
        i = i + 1;
    }
    proof {
        assert(s.skip(i as int) =~= Seq::<PageModel>::empty());
    }
    None
}

/// Looks for a packet that parses as a comment header.
pub fn validate_comment_section(pages: &Vec<Page>) -> (r: bool)
    ensures
        r == has_comment_site(page_models(pages@)),
{
    let ghost s = page_models(pages@);
    let mut i: usize = 0;
    while i < pages.len()
        invariant
            i <= pages@.len(),
            s == page_models(pages@),
            forall|a: int, b: int|
                0 <= a < i && 0 <= b < s[a].packets.len() ==> !is_comment_packet(
                    #[trigger] s[a].packets[b],
                ),
        decreases pages@.len() - i,
    {
        let pk = &pages[i].packets;
        proof {
            assert(s[i as int] == pages@[i as int]@);
        }
        let mut j: usize = 0;
        while j < pk.len()
            invariant
                j <= pk@.len(),
                i < pages@.len(),
                s == page_models(pages@),
                pk@ == pages@[i as int].packets@,
                s[i as int].packets == pages@[i as int].packets.deep_view(),
                forall|b: int|
                    0 <= b < j ==> !is_comment_packet(#[trigger] s[i as int].packets[b]),
            decreases pk@.len() - j,
        {
            proof {
                assert(s[i as int].packets[j as int] == pk@[j as int].deep_view());
                assert(pk@[j as int].deep_view() =~= pk@[j as int]@);
            }
            if crate::vorbis::parse_comment(&pk[j]).is_some() {
                return true;
            }
            j = j + 1;
        }
        i = i + 1;
    }
    false
}

/// Looks for a packet bearing the comment-header prefix.
fn find_comment_shaped(pages: &Vec<Page>) -> (r: bool)
    ensures
        r == has_comment_shaped_packet(page_models(pages@)),
{
    let ghost s = page_models(pages@);
    let mut i: usize = 0;
    while i < pages.len()
        invariant
            i <= pages@.len(),
            s == page_models(pages@),
            forall|a: int, b: int|
                0 <= a < i && 0 <= b < s[a].packets.len() ==> !has_comment_prefix(
                    #[trigger] s[a].packets[b],
                ),
        decreases pages@.len() - i,
    {
        let pk = &pages[i].packets;
        proof {
            assert(s[i as int] == pages@[i as int]@);
        }
        let mut j: usize = 0;
        while j < pk.len()
            invariant
                j <= pk@.len(),
                i < pages@.len(),
                s == page_models(pages@),
                pk@ == pages@[i as int].packets@,
                s[i as int].packets == pages@[i as int].packets.deep_view(),
                forall|b: int|
                    0 <= b < j ==> !has_comment_prefix(#[trigger] s[i as int].packets[b]),
            decreases pk@.len() - j,
        {
            proof {
                assert(s[i as int].packets[j as int] == pk@[j as int].deep_view());
                assert(pk@[j as int].deep_view() =~= pk@[j as int]@);
            }
            if crate::vorbis::starts_like_comment(&pk[j]) {
                return true;
            }
            j = j + 1;
        }
        i = i + 1;
    }
    false
}

/// Validates a submitted page chain against the engine's sample rate and, on
/// acceptance, wraps it as a track under the given handle.
pub fn validate_track(pages: Vec<Page>, sample_rate: u32) -> (r: Result<Track, TrackError>)
    ensures
        ({
            let s = page_models(pages@);
            match r {
                Ok(t) => spec_validate(s, sample_rate) is None && t.models() == s && t.handle
                    == (Handle(0u64)) && t.started_at is None,
                Err(e) => spec_validate(s, sample_rate) == Some(e),
            }
        }),
{
    let ghost s = page_models(pages@);
    if pages.len() == 0 {
        return Err(TrackError::EmptyInput);
    }
    if !check_shape(&pages) {
        return Err(TrackError::MalformedFraming);
    }
    match validate_positions(&pages) {
        Err(e) => {
            return Err(e);
        },
        Ok(()) => {},
    }
    match check_identification(&pages) {
        None => {
            return Err(TrackError::MissingIdentificationHeader);
        },
        Some(rate) => {
            if rate != sample_rate {
                return Err(TrackError::SampleRateMismatch);
            }
        },
    }
    if !validate_comment_section(&pages) {
        if find_comment_shaped(&pages) {
            return Err(TrackError::MalformedFraming);
        }
        return Err(TrackError::MissingCommentHeader);
    }
    let t = Track { handle: Handle(0), pages, started_at: None };
    proof {
        assert(t.models() =~= s);
    }
    Ok(t)
}

} // verus!
