use vstd::prelude::*;

use crate::page::{Page, PageModel};
use crate::track::{page_models, track_coherent};
use crate::vorbis::{
    build_comment_packet, comments_fit, entry_fits, is_comment_packet, keys_eq_free,
    lemma_parse_of_build, lemma_parsed_comments_fit, parse_comment, parse_comment_packet,
    spec_comment_packet, CommentsModel, VorbisComments,
};

verus! {

/// The vendor string written into every rewritten comment header.
pub open spec fn core_vendor() -> Seq<u8> {
    // "Ireul Core"
    seq![73u8, 114u8, 101u8, 117u8, 108u8, 32u8, 67u8, 111u8, 114u8, 101u8]
}

/// Builds the vendor string written into every rewritten comment header.
pub fn make_core_vendor() -> (r: Vec<u8>)
    ensures
        r@ == core_vendor(),
{
    let mut v: Vec<u8> = Vec::new();
    v.push(73);
    v.push(114);
    v.push(101);
    v.push(117);
    v.push(108);
    v.push(32);
    v.push(67);
    v.push(111);
    v.push(114);
    v.push(101);
    proof {
        assert(v@ =~= core_vendor());
    }
    v
}

/// The replacement metadata lifted to its mathematical value.
pub open spec fn meta_model(meta: &Option<Vec<(Vec<u8>, Vec<u8>)>>) -> Option<
    Seq<(Seq<u8>, Seq<u8>)>,
> {
    match meta {
        Some(m) => Some(Seq::new(m@.len(), |i: int| (m@[i].0@, m@[i].1@))),
        None => None,
    }
}

/// What a packet becomes: a comment header is rebuilt with the engine's
/// vendor string and either the supplied entries (wholesale) or its own;
/// every other packet passes through unchanged.
pub open spec fn rewrite_packet(
    p: Seq<u8>,
    meta: Option<Seq<(Seq<u8>, Seq<u8>)>>,
) -> Seq<u8> {
    if is_comment_packet(p) {
        let c = parse_comment_packet(p)->Some_0;
        spec_comment_packet(
            CommentsModel {
                vendor: core_vendor(),
                entries: match meta {
                    Some(es) => es,
                    None => c.entries,
                },
            },
        )
    } else {
        p
    }
}

/// What a page becomes: its packets rewritten, its header fields untouched.
pub open spec fn rewrite_page(m: PageModel, meta: Option<Seq<(Seq<u8>, Seq<u8>)>>) -> PageModel {
    PageModel {
        packets: Seq::new(m.packets.len(), |j: int| rewrite_packet(m.packets[j], meta)),
        ..m
    }
}

/// What a track becomes under the comment rewriter.
pub open spec fn rewrite_pages(
    s: Seq<PageModel>,
    meta: Option<Seq<(Seq<u8>, Seq<u8>)>>,
) -> Seq<PageModel> {
    Seq::new(s.len(), |i: int| rewrite_page(s[i], meta))
}

/// Supplied replacement entries must fit the 32-bit length fields; entries
/// taken from a parsed header always do.
pub open spec fn rewrite_ok(meta: Option<Seq<(Seq<u8>, Seq<u8>)>>) -> bool {
    match meta {
        Some(es) => es.len() <= u32::MAX && forall|i: int|
            0 <= i < es.len() ==> entry_fits(es[i].0, es[i].1),
        None => true,
    }
}

/// Rewriting touches no page header field, so a coherent track stays
/// coherent.
pub proof fn lemma_rewrite_preserves_coherent(
    s: Seq<PageModel>,
    meta: Option<Seq<(Seq<u8>, Seq<u8>)>>,
)
    requires
        track_coherent(s),
    ensures
        track_coherent(rewrite_pages(s, meta)),
{
    let r = rewrite_pages(s, meta);
    assert(forall|i: int| #![trigger r[i]] 0 <= i < r.len() ==> r[i] == rewrite_page(s[i], meta));
}

/// Rewriting a packet twice with the same metadata is the same as rewriting
/// it once.
proof fn lemma_rewrite_packet_idempotent(p: Seq<u8>, meta: Option<Seq<(Seq<u8>, Seq<u8>)>>)
    requires
        rewrite_ok(meta),
    ensures
        rewrite_packet(rewrite_packet(p, meta), meta) == rewrite_packet(p, meta),
{
    if is_comment_packet(p) {
        match meta {
            Some(es) => {
                // the rebuilt header parses, so the second pass recognizes it
                // and replaces it — with the same supplied entries
                let c1 = CommentsModel { vendor: core_vendor(), entries: es };
                assert(comments_fit(c1));
                crate::vorbis::lemma_built_packet_parses(c1);
            },
            None => {
                // the rebuilt header parses back to exactly the entries it
                // carried, so the second pass rebuilds the same bytes
                lemma_parsed_comments_fit(p);
                let c1 = CommentsModel {
                    vendor: core_vendor(),
                    entries: parse_comment_packet(p)->Some_0.entries,
                };
                assert(comments_fit(c1));
                assert(keys_eq_free(c1.entries));
                lemma_parse_of_build(c1);
                assert(parse_comment_packet(rewrite_packet(p, meta)) == Some(c1));
            },
        }
    }
}

/// Applying the comment rewriter twice with the same metadata yields the
/// same track as applying it once: the first pass leaves every page either
/// untouched (no comment header) or carrying the freshly built header, which
/// the second pass recognizes and rebuilds to the same bytes.
pub proof fn lemma_rewrite_idempotent(s: Seq<PageModel>, meta: Option<Seq<(Seq<u8>, Seq<u8>)>>)
    requires
        rewrite_ok(meta),
    ensures
        rewrite_pages(rewrite_pages(s, meta), meta) == rewrite_pages(s, meta),
{
    let once = rewrite_pages(s, meta);
    let twice = rewrite_pages(once, meta);
    assert forall|i: int| 0 <= i < s.len() implies twice[i] == once[i] by {
        let m1 = rewrite_page(s[i], meta);
        let m2 = rewrite_page(m1, meta);
        assert forall|j: int| 0 <= j < m1.packets.len() implies m2.packets[j] == m1.packets[j] by {
            lemma_rewrite_packet_idempotent(s[i].packets[j], meta);
        }
        assert(m2.packets =~= m1.packets);
    }
    assert(twice =~= once);
}

/// Copies comment entries.
fn copy_entries(src: &Vec<(Vec<u8>, Vec<u8>)>) -> (r: Vec<(Vec<u8>, Vec<u8>)>)
    ensures
        r@.len() == src@.len(),
        forall|i: int|
            0 <= i < src@.len() ==> (#[trigger] r@[i]).0@ == src@[i].0@ && r@[i].1@ == src@[i].1@,
{
    let mut out: Vec<(Vec<u8>, Vec<u8>)> = Vec::new();
    let mut i: usize = 0;
    while i < src.len()
        invariant
            i <= src@.len(),
            out@.len() == i,
            forall|j: int|
                0 <= j < i ==> (#[trigger] out@[j]).0@ == src@[j].0@ && out@[j].1@ == src@[j].1@,
        decreases src@.len() - i,
    {
        let k = crate::page::copy_bytes(&src[i].0);
        let v = crate::page::copy_bytes(&src[i].1);
        out.push((k, v));
        i = i + 1;
    }
    out
}

/// Rebuilds every page that carries a comment header, substituting the
/// engine's vendor string and, when replacement metadata is supplied,
/// discarding the original entries wholesale in its favour. All other pages
/// pass through unchanged. Fails only when a supplied entry cannot fit its
/// 32-bit length field.
pub fn rewrite_comments(
    pages: &Vec<Page>,
    metadata: &Option<Vec<(Vec<u8>, Vec<u8>)>>,
) -> (r: Option<Vec<Page>>)
    ensures
        r is Some <==> rewrite_ok(meta_model(metadata)),
        r is Some ==> page_models(r->Some_0@) == rewrite_pages(
            page_models(pages@),
            meta_model(metadata),
        ),
{
    let ghost s = page_models(pages@);
    let ghost meta = meta_model(metadata);
    // refuse replacement entries that cannot fit their length fields
    match metadata {
        Some(m_entries) => {
            if m_entries.len() as u64 > 0xffff_ffffu64 {
                return None;
            }
            let mut j: usize = 0;
            while j < m_entries.len()
                invariant
                    j <= m_entries@.len(),
                    meta == meta_model(metadata),
                    meta is Some && meta->Some_0 == Seq::new(
                        m_entries@.len(),
                        |b: int| (m_entries@[b].0@, m_entries@[b].1@),
                    ),
                    forall|b: int|
                        0 <= b < j ==> entry_fits(
                            (#[trigger] meta->Some_0[b]).0,
                            meta->Some_0[b].1,
                        ),
                decreases m_entries@.len() - j,
            {
                let k = &m_entries[j].0;
                let v = &m_entries[j].1;
                if k.len() as u64 > 0xffff_ffffu64 || v.len() as u64 > 0xffff_ffffu64 || (k.len()
                    as u64) + 1 + (v.len() as u64) > 0xffff_ffffu64 {
                    proof {
                        assert(!entry_fits(meta->Some_0[j as int].0, meta->Some_0[j as int].1));
                    }
                    return None;
                }
                j = j + 1;
            }
        },
        None => {},
    }
    proof {
        assert(rewrite_ok(meta));
    }
    let mut out: Vec<Page> = Vec::new();
    let mut i: usize = 0;
    while i < pages.len()
        invariant
            i <= pages@.len(),
            s == page_models(pages@),
            meta == meta_model(metadata),
            rewrite_ok(meta),
            out@.len() == i,
            forall|j: int| 0 <= j < i ==> #[trigger] out@[j]@ == rewrite_page(s[j], meta),
        decreases pages@.len() - i,
    {
        let page = &pages[i];
        let ghost m = s[i as int];
        proof {
            assert(m == pages@[i as int]@);
        }
        // is there a comment header on this page?
        let mut have_comment = false;
        let mut j: usize = 0;
        while j < page.packets.len()
            invariant
                j <= page.packets@.len(),
                m.packets == page.packets.deep_view(),
                have_comment ==> exists|b: int|
                    0 <= b < m.packets.len() && is_comment_packet(#[trigger] m.packets[b]),
                !have_comment ==> forall|b: int|
                    0 <= b < j ==> !is_comment_packet(#[trigger] m.packets[b]),
            decreases page.packets@.len() - j,
        {
            proof {
                assert(m.packets[j as int] == page.packets@[j as int].deep_view());
                assert(page.packets@[j as int].deep_view() =~= page.packets@[j as int]@);
            }
            if parse_comment(&page.packets[j]).is_some() {
                have_comment = true;
            }
            j = j + 1;
        }
        if !have_comment {
            // fast path: no comment header, the page passes through
            out.push(page.copy_page());
            proof {
                assert(Seq::new(m.packets.len(), |b: int| rewrite_packet(m.packets[b], meta)) =~= m
                    .packets);
                assert(rewrite_page(m, meta) == m);
            }
        } else {
            let mut packets: Vec<Vec<u8>> = Vec::new();
            let mut j: usize = 0;
            while j < page.packets.len()
                invariant
                    j <= page.packets@.len(),
                    m.packets == page.packets.deep_view(),
                    meta == meta_model(metadata),
                    rewrite_ok(meta),
                    packets@.len() == j,
                    forall|b: int|
                        0 <= b < j ==> (#[trigger] packets@[b])@ == rewrite_packet(
                            m.packets[b],
                            meta,
                        ),
                decreases page.packets@.len() - j,
            {
                proof {
                    assert(m.packets[j as int] == page.packets@[j as int].deep_view());
                    assert(page.packets@[j as int].deep_view() =~= page.packets@[j as int]@);
                }
                match parse_comment(&page.packets[j]) {
                    Some(parsed) => {
                        let entries: Vec<(Vec<u8>, Vec<u8>)> = match metadata {
                            Some(m_entries) => copy_entries(m_entries),
                            None => parsed.entries,
                        };
                        let rebuilt = VorbisComments { vendor: make_core_vendor(), entries };
                        proof {
                            assert(rebuilt@.vendor == core_vendor());
                            if meta is None {
                                lemma_parsed_comments_fit(page.packets@[j as int]@);
                                assert(rebuilt@.entries =~= parse_comment_packet(
                                    page.packets@[j as int]@,
                                )->Some_0.entries);
                            } else {
                                assert(rebuilt@.entries =~= meta->Some_0);
                            }
                            assert(comments_fit(rebuilt@));
                        }
                        match build_comment_packet(&rebuilt) {
                            Some(bytes) => {
                                packets.push(bytes);
                            },
                            None => {
                                // unreachable: fit was established above
                                proof {
                                    assert(false);
                                }
                                return None;
                            },
                        }
                    },
                    None => {
                        packets.push(crate::page::copy_bytes(&page.packets[j]));
                    },
                }
                j = j + 1;
            }
            let new_page = Page {
                granule: page.granule,
                serial: page.serial,
                sequence: page.sequence,
                bos: page.bos,
                eos: page.eos,
                continued: page.continued,
                packets,
            };
            proof {
                assert(new_page@.packets =~= Seq::new(
                    m.packets.len(),
                    |b: int| rewrite_packet(m.packets[b], meta),
                )) by {
                    assert(forall|b: int|
                        0 <= b < new_page.packets@.len()
                            ==> #[trigger] new_page.packets.deep_view()[b] == new_page.packets@[
                        b].deep_view());
                    assert(forall|b: int|
                        0 <= b < new_page.packets@.len() ==> (#[trigger] new_page.packets@[
                        b]).deep_view() =~= new_page.packets@[b]@);
                }
                assert(new_page@ == rewrite_page(m, meta));
            }
            out.push(new_page);
        }
        i = i + 1;
    }
    proof {
        assert(page_models(out@) =~= rewrite_pages(s, meta));
    }
    Some(out)
}

} // verus!
