use ireul_core::page::Page;
use ireul_core::pacer::Pacer;
use ireul_core::queue::{PlayQueue, PlayQueueError};
use ireul_core::rewrite::rewrite_comments;
use ireul_core::track::{validate_track, Handle, Track, TrackError, TrackInfo};
use ireul_core::vorbis::{
    build_comment_packet, identification_rate, parse_comment, VorbisComments,
};
use ireul_core::wire::{
    decode_frame_header, encode_response_frame, encode_track_info, FrameError, FrameHeader,
    FrameOp, RequestType,
};

fn ident(rate: u32) -> Vec<u8> {
    let mut p = vec![1u8];
    p.extend_from_slice(b"vorbis");
    p.extend_from_slice(&[0, 0, 0, 0]);
    p.push(2);
    p.extend_from_slice(&rate.to_le_bytes());
    p
}

fn comments(vendor: &str, entries: &[(&str, &str)]) -> Vec<u8> {
    let c = VorbisComments {
        vendor: vendor.as_bytes().to_vec(),
        entries: entries
            .iter()
            .map(|(k, v)| (k.as_bytes().to_vec(), v.as_bytes().to_vec()))
            .collect(),
    };
    build_comment_packet(&c).unwrap()
}

fn plain_page(granule: u64, sequence: u32, bos: bool, eos: bool, packets: Vec<Vec<u8>>) -> Page {
    Page { granule, serial: 3, sequence, bos, eos, continued: false, packets }
}

fn valid_pages(granules: &[u64], rate: u32) -> Vec<Page> {
    let n = granules.len();
    granules
        .iter()
        .enumerate()
        .map(|(i, &g)| {
            let packets = if i == 0 {
                vec![ident(rate), comments("v", &[("A", "B")])]
            } else {
                vec![vec![9u8]]
            };
            plain_page(g, i as u32, i == 0, i == n - 1, packets)
        })
        .collect()
}

fn expect_err(r: Result<Track, TrackError>) -> TrackError {
    match r {
        Err(e) => e,
        Ok(_) => panic!("unexpectedly accepted"),
    }
}

// ---------------------------------------------------------------------------
// Vorbis packets
// ---------------------------------------------------------------------------

#[test]
fn comment_packet_round_trip() {
    let built = comments("vend", &[("ARTIST", "Someone"), ("TITLE", "=weird=")]);
    let parsed = parse_comment(&built).unwrap();
    assert_eq!(parsed.vendor, b"vend".to_vec());
    assert_eq!(
        parsed.entries,
        vec![
            (b"ARTIST".to_vec(), b"Someone".to_vec()),
            (b"TITLE".to_vec(), b"=weird=".to_vec()),
        ]
    );
}

#[test]
fn comment_packet_layout_is_byte_exact() {
    let built = comments("v", &[("A", "B")]);
    let mut expected = vec![3u8];
    expected.extend_from_slice(b"vorbis");
    expected.extend_from_slice(&1u32.to_le_bytes()); // vendor length
    expected.push(b'v');
    expected.extend_from_slice(&1u32.to_le_bytes()); // entry count
    expected.extend_from_slice(&3u32.to_le_bytes()); // entry length
    expected.extend_from_slice(b"A=B");
    expected.push(1); // framing byte
    assert_eq!(built, expected);
}

#[test]
fn comment_packet_without_framing_byte_is_refused() {
    let mut built = comments("v", &[("A", "B")]);
    let last = built.len() - 1;
    built[last] = 0;
    assert!(parse_comment(&built).is_none());
}

#[test]
fn truncated_comment_packet_is_refused() {
    let built = comments("v", &[("A", "B")]);
    let cut = built[..built.len() - 2].to_vec();
    assert!(parse_comment(&cut).is_none());
}

#[test]
fn identification_rate_reads_the_header() {
    assert_eq!(identification_rate(&ident(48000)), Some(48000));
    assert_eq!(identification_rate(&ident(44100)), Some(44100));
    assert_eq!(identification_rate(&vec![9u8; 16]), None);
    assert_eq!(identification_rate(&ident(48000)[..12].to_vec()), None);
}

// ---------------------------------------------------------------------------
// Validation
// ---------------------------------------------------------------------------

#[test]
fn validator_accepts_a_well_formed_track() {
    let t = validate_track(valid_pages(&[0, 100, 200], 48000), 48000).unwrap();
    assert_eq!(t.pages.len(), 3);
}

#[test]
fn validator_rejects_empty_input() {
    assert_eq!(expect_err(validate_track(Vec::new(), 48000)), TrackError::EmptyInput);
}

#[test]
fn validator_rejects_broken_sequence_numbering() {
    let mut pages = valid_pages(&[0, 100, 200], 48000);
    pages[2].sequence = 7;
    assert_eq!(expect_err(validate_track(pages, 48000)), TrackError::MalformedFraming);
}

#[test]
fn validator_rejects_missing_eos() {
    let mut pages = valid_pages(&[0, 100, 200], 48000);
    pages[2].eos = false;
    assert_eq!(expect_err(validate_track(pages, 48000)), TrackError::MalformedFraming);
}

#[test]
fn validator_rejects_nonzero_first_granule() {
    let mut pages = valid_pages(&[0, 100, 200], 48000);
    pages[0].granule = 5;
    assert_eq!(expect_err(validate_track(pages, 48000)), TrackError::FirstPageGranuleNonZero);
}

#[test]
fn validator_rejects_decreasing_granules() {
    let pages = valid_pages(&[0, 200, 100], 48000);
    assert_eq!(expect_err(validate_track(pages, 48000)), TrackError::NonMonotonicGranule);
}

#[test]
fn validator_rejects_missing_identification_header() {
    let mut pages = valid_pages(&[0, 100], 48000);
    pages[0].packets.remove(0);
    assert_eq!(expect_err(validate_track(pages, 48000)), TrackError::MissingIdentificationHeader);
}

#[test]
fn validator_rejects_wrong_sample_rate() {
    let pages = valid_pages(&[0, 100], 44100);
    assert_eq!(expect_err(validate_track(pages, 48000)), TrackError::SampleRateMismatch);
}

#[test]
fn validator_rejects_missing_comment_header() {
    let mut pages = valid_pages(&[0, 100], 48000);
    pages[0].packets.remove(1);
    assert_eq!(expect_err(validate_track(pages, 48000)), TrackError::MissingCommentHeader);
}

#[test]
fn validator_rejects_unparseable_comment_site_as_malformed() {
    let mut pages = valid_pages(&[0, 100], 48000);
    // a packet that opens like a comment header but is cut short: the shape
    // of a comment packet spanning a page boundary
    let mut broken = pages[0].packets[1].clone();
    broken.truncate(9);
    pages[0].packets[1] = broken;
    assert_eq!(expect_err(validate_track(pages, 48000)), TrackError::MalformedFraming);
}

// ---------------------------------------------------------------------------
// Comment rewriting
// ---------------------------------------------------------------------------

#[test]
fn rewrite_replaces_vendor_and_entries_wholesale() {
    let pages = valid_pages(&[0, 100], 48000);
    let meta = Some(vec![(b"TITLE".to_vec(), b"Y".to_vec())]);
    let out = rewrite_comments(&pages, &meta).unwrap();
    let c = parse_comment(&out[0].packets[1]).unwrap();
    assert_eq!(c.vendor, b"Ireul Core".to_vec());
    assert_eq!(c.entries, vec![(b"TITLE".to_vec(), b"Y".to_vec())]);
    // non-comment packets and pages pass through unchanged
    assert_eq!(out[0].packets[0], pages[0].packets[0]);
    assert_eq!(out[1].packets, pages[1].packets);
    assert_eq!(out[0].granule, pages[0].granule);
    assert_eq!(out[0].sequence, pages[0].sequence);
}

#[test]
fn rewrite_keeps_entries_when_no_metadata_is_supplied() {
    let pages = valid_pages(&[0, 100], 48000);
    let out = rewrite_comments(&pages, &None).unwrap();
    let c = parse_comment(&out[0].packets[1]).unwrap();
    assert_eq!(c.vendor, b"Ireul Core".to_vec());
    assert_eq!(c.entries, vec![(b"A".to_vec(), b"B".to_vec())]);
}

fn pages_equal(a: &[Page], b: &[Page]) -> bool {
    a.len() == b.len()
        && a.iter().zip(b.iter()).all(|(x, y)| {
            x.granule == y.granule
                && x.serial == y.serial
                && x.sequence == y.sequence
                && x.bos == y.bos
                && x.eos == y.eos
                && x.continued == y.continued
                && x.packets == y.packets
        })
}

#[test]
fn rewrite_is_idempotent() {
    let pages = valid_pages(&[0, 100], 48000);
    let meta = Some(vec![(b"TITLE".to_vec(), b"Y".to_vec())]);
    let once = rewrite_comments(&pages, &meta).unwrap();
    let twice = rewrite_comments(&once, &meta).unwrap();
    assert!(pages_equal(&once, &twice));
    // and with the original entries kept
    let once_kept = rewrite_comments(&pages, &None).unwrap();
    let twice_kept = rewrite_comments(&once_kept, &None).unwrap();
    assert!(pages_equal(&once_kept, &twice_kept));
}

// ---------------------------------------------------------------------------
// Play queue
// ---------------------------------------------------------------------------

fn queue_track(marker: u8) -> Track {
    Track { handle: Handle(0), pages: valid_pages(&[0, 100 + marker as u64], 48000), started_at: None }
}

#[test]
fn queue_allocates_fresh_handles_and_bounds_itself() {
    let mut q = PlayQueue::new(2);
    assert_eq!(q.add_track(queue_track(1)), Ok(Handle(1)));
    assert_eq!(q.add_track(queue_track(2)), Ok(Handle(2)));
    assert_eq!(q.add_track(queue_track(3)), Err(PlayQueueError::Full));
    assert_eq!(q.len(), 2);
    // a refused admission mutated nothing
    let infos = q.infos();
    assert_eq!(infos.len(), 2);
    assert_eq!(infos[0].handle, Handle(1));
    assert_eq!(infos[1].handle, Handle(2));
    assert_eq!(infos[0].sample_position, 0);
    assert_eq!(infos[0].started_at, None);
}

#[test]
fn queue_pop_moves_to_history_with_totals() {
    let mut q = PlayQueue::new(4);
    q.add_track(queue_track(1)).unwrap();
    q.add_track(queue_track(2)).unwrap();
    let t = q.pop(1000).unwrap();
    assert_eq!(t.handle, Handle(1));
    assert_eq!(t.started_at, Some(1000));
    let t2 = q.pop(2000).unwrap();
    assert_eq!(t2.handle, Handle(2));
    assert!(q.pop(3000).is_none());
    // history is newest first and records the total sample count
    let h = q.get_history();
    assert_eq!(h.len(), 2);
    assert_eq!(h[0].handle, Handle(2));
    assert_eq!(h[0].sample_position, 102);
    assert_eq!(h[0].started_at, Some(2000));
    assert_eq!(h[1].handle, Handle(1));
    assert_eq!(h[1].sample_position, 101);
}

#[test]
fn queue_handles_never_repeat_after_pop() {
    let mut q = PlayQueue::new(2);
    assert_eq!(q.add_track(queue_track(1)), Ok(Handle(1)));
    q.pop(0).unwrap();
    assert_eq!(q.add_track(queue_track(2)), Ok(Handle(2)));
    assert_eq!(q.add_track(queue_track(3)), Ok(Handle(3)));
}

#[test]
fn queue_history_is_bounded() {
    let mut q = PlayQueue::new(1);
    for i in 0..70u8 {
        q.add_track(queue_track(i)).unwrap();
        q.pop(i as u64).unwrap();
    }
    let h = q.get_history();
    assert_eq!(h.len(), 64);
    // newest first: the last track popped leads
    assert_eq!(h[0].handle, Handle(70));
    assert_eq!(h[63].handle, Handle(7));
}

#[test]
fn validator_accepts_equal_granules() {
    // non-decreasing allows a flat stretch
    let pages = valid_pages(&[0, 100, 100, 200], 48000);
    assert!(validate_track(pages, 48000).is_ok());
}

// ---------------------------------------------------------------------------
// Pacer
// ---------------------------------------------------------------------------

#[test]
fn pacer_durations() {
    let p = Pacer::new(48000);
    assert_eq!(p.duration_until_next(960, 0), 20);
    assert_eq!(p.duration_until_next(48000, 0), 1000);
    assert_eq!(p.duration_until_next(48000, 47040), 20);
    // the "no packet completed" sentinel and non-advancing granules wait
    // nothing
    assert_eq!(p.duration_until_next(u64::MAX, 0), 0);
    assert_eq!(p.duration_until_next(100, 200), 0);
    assert_eq!(p.duration_until_next(100, 100), 0);
}

// ---------------------------------------------------------------------------
// Wire framing
// ---------------------------------------------------------------------------

fn header_bytes(version: u8, op: u32, length: u32) -> Vec<u8> {
    let mut b = vec![version];
    b.extend_from_slice(&op.to_be_bytes());
    b.extend_from_slice(&length.to_be_bytes());
    b
}

#[test]
fn frame_header_decodes_requests() {
    assert_eq!(
        decode_frame_header(&header_bytes(0, 1, 42)),
        Ok(FrameHeader { op: FrameOp::Request(RequestType::EnqueueTrack), length: 42 })
    );
    assert_eq!(
        decode_frame_header(&header_bytes(0, 4, 0)),
        Ok(FrameHeader { op: FrameOp::Request(RequestType::ReplaceFallback), length: 0 })
    );
    assert_eq!(
        decode_frame_header(&header_bytes(0, 0, 0)),
        Ok(FrameHeader { op: FrameOp::Close, length: 0 })
    );
}

#[test]
fn frame_header_rejections() {
    assert_eq!(decode_frame_header(&vec![0u8; 5]), Err(FrameError::Truncated));
    assert_eq!(
        decode_frame_header(&header_bytes(1, 1, 0)),
        Err(FrameError::BadVersion)
    );
    assert_eq!(
        decode_frame_header(&header_bytes(0, 9, 0)),
        Err(FrameError::UnknownOpCode)
    );
    assert_eq!(
        decode_frame_header(&header_bytes(0, 2, 20 * 1024 * 1024 + 1)),
        Err(FrameError::Oversized)
    );
    assert_eq!(
        decode_frame_header(&header_bytes(0, 2, 20 * 1024 * 1024)),
        Ok(FrameHeader { op: FrameOp::Request(RequestType::FastForward), length: 20 * 1024 * 1024 })
    );
}

#[test]
fn response_frame_prefixes_the_length() {
    let payload = vec![1u8, 2, 3];
    let framed = encode_response_frame(&payload).unwrap();
    assert_eq!(framed, vec![0, 0, 0, 3, 1, 2, 3]);
}

#[test]
fn track_info_encoding_is_self_describing() {
    let mut out = Vec::new();
    encode_track_info(
        &mut out,
        &TrackInfo { handle: Handle(5), sample_position: 960, started_at: None },
    );
    let mut expected = Vec::new();
    expected.extend_from_slice(&5u64.to_le_bytes());
    expected.extend_from_slice(&960u64.to_le_bytes());
    expected.push(0);
    assert_eq!(out, expected);
    let mut out2 = Vec::new();
    encode_track_info(
        &mut out2,
        &TrackInfo { handle: Handle(5), sample_position: 960, started_at: Some(7) },
    );
    assert_eq!(out2.len(), 25);
    assert_eq!(out2[16], 1);
}
