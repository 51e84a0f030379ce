use ireul_core::engine::{
    Core, EnqueueTrackError, EnqueueTrackRequest, FastForward, FastForwardRequest,
    ReplaceFallbackRequest,
};
use ireul_core::page::Page;
use ireul_core::track::{Handle, Track};
use ireul_core::vorbis::{build_comment_packet, parse_comment, VorbisComments};

fn id_packet(rate: u32) -> Vec<u8> {
    let mut p = vec![1u8];
    p.extend_from_slice(b"vorbis");
    p.extend_from_slice(&[0, 0, 0, 0]); // version
    p.push(2); // channels
    p.extend_from_slice(&rate.to_le_bytes());
    p
}

fn comment_packet(vendor: &str, entries: &[(&str, &str)]) -> Vec<u8> {
    let c = VorbisComments {
        vendor: vendor.as_bytes().to_vec(),
        entries: entries
            .iter()
            .map(|(k, v)| (k.as_bytes().to_vec(), v.as_bytes().to_vec()))
            .collect(),
    };
    build_comment_packet(&c).unwrap()
}

fn page(granule: u64, sequence: u32, bos: bool, eos: bool, packets: Vec<Vec<u8>>) -> Page {
    Page {
        granule,
        serial: 7,
        sequence,
        bos,
        eos,
        continued: false,
        packets,
    }
}

/// A valid track: identification and comment headers on the first page, one
/// audio packet (`marker`) on each later page.
fn make_track(granules: &[u64], rate: u32, marker: u8) -> Vec<Page> {
    let n = granules.len();
    let mut pages = Vec::new();
    for (i, &g) in granules.iter().enumerate() {
        let packets = if i == 0 {
            vec![id_packet(rate), comment_packet("xiph", &[("ARTIST", "A")])]
        } else {
            vec![vec![marker]]
        };
        pages.push(page(g, i as u32, i == 0, i == n - 1, packets));
    }
    pages
}

fn fallback_track(granules: &[u64], rate: u32) -> Track {
    Track {
        handle: Handle(0),
        pages: make_track(granules, rate, 0xaa),
        started_at: None,
    }
}

fn new_engine() -> Core {
    Core::new(48000, 10, fallback_track(&[0, 960, 1920, 2880, 3840], 48000))
}

#[test]
fn s1_fallback_loop() {
    let mut core = new_engine();
    let mut granules = Vec::new();
    let mut serials = Vec::new();
    for _ in 0..5 {
        let out = core.tick(0);
        granules.push(out.page.granule);
        serials.push(out.page.serial);
    }
    assert_eq!(granules, vec![0, 960, 1920, 2880, 3840]);
    assert_eq!(serials, vec![0, 0, 0, 0, 0]);
    // the sixth tick loops the fallback under the next serial
    let out = core.tick(0);
    assert_eq!(out.page.granule, 0);
    assert_eq!(out.page.serial, 1);
}

#[test]
fn s1_pacing() {
    let mut core = new_engine();
    let first = core.tick(0);
    assert_eq!(first.delay_ms, 0); // 0 - 0 samples
    let second = core.tick(0);
    assert_eq!(second.delay_ms, 20); // 960 samples at 48 kHz
}

#[test]
fn s2_enqueue_while_offline_fast_forwards() {
    let mut core = new_engine();
    // two fallback pages on the air
    let p1 = core.tick(0);
    let p2 = core.tick(0);
    assert_eq!((p1.page.granule, p2.page.granule), (0, 960));
    assert_eq!(p2.page.sequence, 1);
    // a client enqueues a three-page track while the engine is offline
    let handle = core
        .enqueue_track(EnqueueTrackRequest {
            track: make_track(&[0, 480, 960], 48000, 0xbb),
            metadata: None,
        })
        .unwrap();
    assert_eq!(handle, Handle(1));
    // next on the air: the synthetic end-of-stream page closing the fallback
    let eos = core.tick(0);
    assert!(eos.page.eos);
    assert_eq!(eos.page.granule, 960);
    assert_eq!(eos.page.serial, p2.page.serial);
    assert_eq!(eos.page.sequence, p2.page.sequence + 1);
    // then the new track, as a fresh logical bitstream from granule 0
    let t1 = core.tick(5);
    assert_eq!(t1.page.granule, 0);
    assert_eq!(t1.page.serial, 1);
    assert!(t1.page.bos);
}

#[test]
fn s3_sample_rate_mismatch_rejected() {
    let mut core = new_engine();
    let before = core.queue_status();
    let r = core.enqueue_track(EnqueueTrackRequest {
        track: make_track(&[0, 480, 960], 44100, 0xbb),
        metadata: None,
    });
    assert_eq!(r, Err(EnqueueTrackError::BadSampleRate));
    let after = core.queue_status();
    assert_eq!(before.upcoming, after.upcoming);
    assert_eq!(before.history, after.history);
}

#[test]
fn s4_queue_full() {
    let mut core = Core::new(48000, 2, fallback_track(&[0, 960], 48000));
    let t = || make_track(&[0, 480, 960], 48000, 0xbb);
    assert_eq!(
        core.enqueue_track(EnqueueTrackRequest { track: t(), metadata: None }),
        Ok(Handle(1))
    );
    assert_eq!(
        core.enqueue_track(EnqueueTrackRequest { track: t(), metadata: None }),
        Ok(Handle(2))
    );
    assert_eq!(
        core.enqueue_track(EnqueueTrackRequest { track: t(), metadata: None }),
        Err(EnqueueTrackError::Full)
    );
    assert_eq!(core.queue_status().upcoming.len(), 2);
}

#[test]
fn s5_metadata_substitution() {
    let mut core = new_engine();
    core.enqueue_track(EnqueueTrackRequest {
        track: make_track(&[0, 480, 960], 48000, 0xbb),
        metadata: Some(vec![
            (b"ARTIST".to_vec(), b"X".to_vec()),
            (b"TITLE".to_vec(), b"Y".to_vec()),
        ]),
    })
    .unwrap();
    // the queue is non-empty, so the first tick emits the track's first page,
    // which carries the rewritten comment header
    let out = core.tick(0);
    let rewritten = parse_comment(&out.page.packets[1]).expect("a comment header");
    assert_eq!(rewritten.vendor, b"Ireul Core".to_vec());
    assert_eq!(
        rewritten.entries,
        vec![
            (b"ARTIST".to_vec(), b"X".to_vec()),
            (b"TITLE".to_vec(), b"Y".to_vec()),
        ]
    );
}

#[test]
fn s6_replace_fallback_takes_over_when_queue_empties() {
    let mut core = new_engine();
    core.enqueue_track(EnqueueTrackRequest {
        track: make_track(&[0, 480, 960], 48000, 0xbb),
        metadata: None,
    })
    .unwrap();
    // the queued track is playing
    let first = core.tick(0);
    assert_eq!(first.page.serial, 0);
    assert!(!first.page.eos);
    // replace the fallback mid-playback; nothing buffered changes
    let r = core.replace_fallback(ReplaceFallbackRequest {
        track: make_track(&[0, 240], 48000, 0xcc),
        metadata: None,
    });
    assert_eq!(r, Ok(()));
    // finish the queued track
    core.tick(0);
    let last = core.tick(0);
    assert!(last.page.eos);
    // the queue is empty: the engine switches to the new fallback
    let f = core.tick(0);
    assert_eq!(f.page.granule, 0);
    assert!(f.page.bos);
    let f2 = core.tick(0);
    assert_eq!(f2.page.packets[0], vec![0xcc]);
    assert_eq!(f2.page.granule, 240);
}

#[test]
fn fast_forward_request_drains_to_boundary() {
    let mut core = new_engine();
    let p1 = core.tick(0);
    core.fast_forward(FastForwardRequest { kind: FastForward::TrackBoundary });
    // the synthetic end-of-stream page continues the emitted stream
    let eos = core.tick(0);
    assert!(eos.page.eos);
    assert_eq!(eos.page.granule, p1.page.granule);
    assert_eq!(eos.page.serial, p1.page.serial);
    assert_eq!(eos.page.sequence, p1.page.sequence + 1);
    // then the fallback loops again under a fresh serial
    let next = core.tick(0);
    assert_eq!(next.page.granule, 0);
    assert_eq!(next.page.serial, 1);
}

#[test]
fn emitted_stream_laws_across_splices() {
    // granule monotone within each serial run, sequence stepping by one,
    // runs opening at granule 0: checked over a stream with two splices
    let mut core = new_engine();
    let mut pages: Vec<Page> = Vec::new();
    for i in 0..4 {
        pages.push(core.tick(i).page);
    }
    core.enqueue_track(EnqueueTrackRequest {
        track: make_track(&[0, 480, 960], 48000, 0xbb),
        metadata: None,
    })
    .unwrap();
    for i in 4..12 {
        pages.push(core.tick(i).page);
    }
    for w in pages.windows(2) {
        let (a, b) = (&w[0], &w[1]);
        if a.serial == b.serial {
            assert_eq!(b.sequence, a.sequence.wrapping_add(1));
            assert!(a.granule <= b.granule);
        } else {
            assert_eq!(b.granule, 0);
        }
    }
}

#[test]
fn now_playing_tracks_sample_position() {
    let mut core = new_engine();
    core.enqueue_track(EnqueueTrackRequest {
        track: make_track(&[0, 480, 960], 48000, 0xbb),
        metadata: None,
    })
    .unwrap();
    core.tick(17);
    let status = core.queue_status();
    assert_eq!(status.upcoming.len(), 1);
    assert_eq!(status.upcoming[0].handle, Handle(1));
    assert_eq!(status.upcoming[0].started_at, Some(17));
    core.tick(18);
    let status = core.queue_status();
    assert_eq!(status.upcoming[0].sample_position, 480);
}

#[test]
fn history_records_played_tracks_newest_first() {
    let mut core = new_engine();
    let t = |m: u8| make_track(&[0, 480, 960], 48000, m);
    core.enqueue_track(EnqueueTrackRequest { track: t(1), metadata: None }).unwrap();
    core.enqueue_track(EnqueueTrackRequest { track: t(2), metadata: None }).unwrap();
    for i in 0..6 {
        core.tick(i);
    }
    let status = core.queue_status();
    let handles: Vec<Handle> = status.history.iter().map(|i| i.handle).collect();
    assert_eq!(handles, vec![Handle(2), Handle(1)]);
    assert_eq!(status.history[0].sample_position, 960);
    assert_eq!(status.history[1].started_at, Some(0));
}
