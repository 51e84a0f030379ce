use vstd::prelude::*;

verus! {

// ---------------------------------------------------------------------------
// Little-endian 32-bit fields
// ---------------------------------------------------------------------------

/// The four little-endian bytes of a 32-bit value.
pub open spec fn le32_bytes(n: u32) -> Seq<u8> {
    seq![
        (n & 0xff) as u8,
        ((n >> 8) & 0xff) as u8,
        ((n >> 16) & 0xff) as u8,
        ((n >> 24) & 0xff) as u8,
    ]
}

/// The 32-bit value held by four little-endian bytes.
pub open spec fn le32_val(b: Seq<u8>) -> u32
    recommends
        b.len() == 4,
{
    (b[0] as u32) | ((b[1] as u32) << 8) | ((b[2] as u32) << 16) | ((b[3] as u32) << 24)
}

pub proof fn lemma_le32_round_trip(n: u32)
    ensures
        le32_val(le32_bytes(n)) == n,
{
    assert(((n & 0xff) as u8) as u32 | ((((n >> 8) & 0xff) as u8) as u32) << 8 | ((((n >> 16)
        & 0xff) as u8) as u32) << 16 | ((((n >> 24) & 0xff) as u8) as u32) << 24 == n)
        by (bit_vector);
}

/// Reads the little-endian 32-bit field at offset `i`.
pub fn read_le32(b: &Vec<u8>, i: usize) -> (r: u32)
    requires
        i + 4 <= b.len(),
    ensures
        r == le32_val(b@.subrange(i as int, i as int + 4)),
{
    let r = (b[i] as u32) | ((b[i + 1] as u32) << 8) | ((b[i + 2] as u32) << 16) | ((b[i + 3]
        as u32) << 24);
    proof {
        let s = b@.subrange(i as int, i as int + 4);
        assert(s[0] == b@[i as int] && s[1] == b@[i as int + 1] && s[2] == b@[i as int + 2] && s[3]
            == b@[i as int + 3]);
    }
    r
}

/// Appends the little-endian bytes of `n`.
pub fn push_le32(out: &mut Vec<u8>, n: u32)
    ensures
        final(out)@ == old(out)@ + le32_bytes(n),
{
    out.push((n & 0xff) as u8);
    out.push(((n >> 8) & 0xff) as u8);
    out.push(((n >> 16) & 0xff) as u8);
    out.push(((n >> 24) & 0xff) as u8);
    proof {
        assert(out@ =~= old(out)@ + le32_bytes(n));
    }
}

// ---------------------------------------------------------------------------
// Vorbis header packet prefixes
// ---------------------------------------------------------------------------

/// Leading bytes of a Vorbis identification header: packet type 1, "vorbis".
pub open spec fn ident_prefix() -> Seq<u8> {
    seq![1u8, 118u8, 111u8, 114u8, 98u8, 105u8, 115u8]
}

/// Leading bytes of a Vorbis comment header: packet type 3, "vorbis".
pub open spec fn comment_prefix() -> Seq<u8> {
    seq![3u8, 118u8, 111u8, 114u8, 98u8, 105u8, 115u8]
}

/// Whether the packet is a Vorbis identification header carrying a sample
/// rate: the type-1 prefix followed by at least the version, channel-count
/// and sample-rate fields.
pub open spec fn is_ident_packet(p: Seq<u8>) -> bool {
    p.len() >= 16 && p.subrange(0, 7) == ident_prefix()
}

/// The audio sample rate of an identification header: the little-endian
/// field after the version (4 bytes) and channel count (1 byte).
pub open spec fn ident_rate(p: Seq<u8>) -> u32
    recommends
        is_ident_packet(p),
{
    le32_val(p.subrange(12, 16))
}

/// Whether the packet opens like a Vorbis comment header, whether or not the
/// body behind the prefix is well formed.
pub open spec fn has_comment_prefix(p: Seq<u8>) -> bool {
    p.len() >= 7 && p.subrange(0, 7) == comment_prefix()
}

/// The sample rate of the first identification header among the packets.
pub open spec fn find_ident_rate_packets(ps: Seq<Seq<u8>>) -> Option<u32>
    decreases ps.len(),
{
    if ps.len() == 0 {
        None
    } else if is_ident_packet(ps[0]) {
        Some(ident_rate(ps[0]))
    } else {
        find_ident_rate_packets(ps.skip(1))
    }
}

/// The sample rate of the first identification header in the page chain,
/// scanning pages and their packets in order.
pub open spec fn find_ident_rate_pages(s: Seq<crate::page::PageModel>) -> Option<u32>
    decreases s.len(),
{
    if s.len() == 0 {
        None
    } else {
        match find_ident_rate_packets(s[0].packets) {
            Some(r) => Some(r),
            None => find_ident_rate_pages(s.skip(1)),
        }
    }
}

/// Tests the packet against the identification-header shape and returns its
/// audio sample rate.
pub fn identification_rate(p: &Vec<u8>) -> (r: Option<u32>)
    ensures
        r is Some <==> is_ident_packet(p@),
        r is Some ==> r->Some_0 == ident_rate(p@),
{
    if p.len() < 16 {
        proof {
            assert(!is_ident_packet(p@));
        }
        return None;
    }
    if p[0] == 1 && p[1] == 118 && p[2] == 111 && p[3] == 114 && p[4] == 98 && p[5] == 105 && p[6]
        == 115 {
        proof {
            assert(p@.subrange(0, 7) =~= ident_prefix());
        }
        Some(read_le32(p, 12))
    } else {
        proof {
            assert(p@.subrange(0, 7) != ident_prefix()) by {
                if p@.subrange(0, 7) == ident_prefix() {
                    assert(p@[0] == ident_prefix()[0] && p@[1] == ident_prefix()[1] && p@[2]
                        == ident_prefix()[2] && p@[3] == ident_prefix()[3] && p@[4]
                        == ident_prefix()[4] && p@[5] == ident_prefix()[5] && p@[6]
                        == ident_prefix()[6]);
                }
            }
        }
        None
    }
}

/// Tests the packet for the comment-header prefix.
pub fn starts_like_comment(p: &Vec<u8>) -> (r: bool)
    ensures
        r == has_comment_prefix(p@),
{
    if p.len() < 7 {
        return false;
    }
    let r = p[0] == 3 && p[1] == 118 && p[2] == 111 && p[3] == 114 && p[4] == 98 && p[5] == 105
        && p[6] == 115;
    proof {
        if r {
            assert(p@.subrange(0, 7) =~= comment_prefix());
        } else {
            if p@.subrange(0, 7) == comment_prefix() {
                assert(p@[0] == comment_prefix()[0] && p@[1] == comment_prefix()[1] && p@[2]
                    == comment_prefix()[2] && p@[3] == comment_prefix()[3] && p@[4]
                    == comment_prefix()[4] && p@[5] == comment_prefix()[5] && p@[6]
                    == comment_prefix()[6]);
            }
        }
    }
    r
}

// ---------------------------------------------------------------------------
// Vorbis comment headers
// ---------------------------------------------------------------------------

/// A Vorbis comment header lifted to plain values: the vendor string and the
/// user comment entries, each a key/value pair of raw bytes.
pub struct VorbisComments {
    pub vendor: Vec<u8>,
    pub entries: Vec<(Vec<u8>, Vec<u8>)>,
}

/// The mathematical value of a [`VorbisComments`].
pub ghost struct CommentsModel {
    pub vendor: Seq<u8>,
    pub entries: Seq<(Seq<u8>, Seq<u8>)>,
}

impl View for VorbisComments {
    type V = CommentsModel;

    open spec fn view(&self) -> CommentsModel {
        CommentsModel {
            vendor: self.vendor@,
            entries: Seq::new(
                self.entries@.len(),
                |i: int| (self.entries@[i].0@, self.entries@[i].1@),
            ),
        }
    }
}

/// An entry's serialized length fits the 32-bit length field.
pub open spec fn entry_fits(k: Seq<u8>, v: Seq<u8>) -> bool {
    k.len() + 1 + v.len() <= u32::MAX
}

/// All length fields of the serialized comment header fit 32 bits.
pub open spec fn comments_fit(c: CommentsModel) -> bool {
    &&& c.vendor.len() <= u32::MAX
    &&& c.entries.len() <= u32::MAX
    &&& forall|i: int| 0 <= i < c.entries.len() ==> entry_fits(c.entries[i].0, c.entries[i].1)
}

/// A serialized comment entry: key, `=`, value.
pub open spec fn entry_bytes(k: Seq<u8>, v: Seq<u8>) -> Seq<u8> {
    k + seq![61u8] + v
}

/// A length-prefixed serialized comment entry.
pub open spec fn build_entry(k: Seq<u8>, v: Seq<u8>) -> Seq<u8> {
    le32_bytes((k.len() + 1 + v.len()) as u32) + entry_bytes(k, v)
}

/// The serialized entry section of a comment header.
pub open spec fn build_entries(es: Seq<(Seq<u8>, Seq<u8>)>) -> Seq<u8>
    decreases es.len(),
{
    if es.len() == 0 {
        Seq::empty()
    } else {
        build_entry(es[0].0, es[0].1) + build_entries(es.drop_first())
    }
}

/// The serialized comment header: prefix, length-prefixed vendor string,
/// entry count, entries, framing byte.
pub open spec fn spec_comment_packet(c: CommentsModel) -> Seq<u8> {
    comment_prefix() + le32_bytes(c.vendor.len() as u32) + c.vendor + le32_bytes(
        c.entries.len() as u32,
    ) + build_entries(c.entries) + seq![1u8]
}

/// The offset of the first `=` in a byte string, or -1 when there is none.
pub open spec fn first_eq(s: Seq<u8>) -> int
    decreases s.len(),
{
    if s.len() == 0 {
        -1
    } else if s[0] == 61 {
        0
    } else {
        let r = first_eq(s.drop_first());
        if r < 0 {
            -1
        } else {
            r + 1
        }
    }
}

/// `first_eq` returns -1 exactly when the string has no `=`, and otherwise
/// the least offset holding one.
pub proof fn lemma_first_eq(s: Seq<u8>)
    ensures
        first_eq(s) == -1 <==> (forall|j: int| 0 <= j < s.len() ==> s[j] != 61),
        first_eq(s) >= 0 ==> first_eq(s) < s.len() && s[first_eq(s)] == 61 && (forall|j: int|
            0 <= j < first_eq(s) ==> s[j] != 61),
    decreases s.len(),
{
    if s.len() > 0 && s[0] != 61 {
        lemma_first_eq(s.drop_first());
        let t = s.drop_first();
        assert(forall|j: int| 0 < j < s.len() ==> s[j] == t[j - 1]);
    }
}

/// A parsed comment entry: the bytes before the first `=` and those after it.
pub open spec fn parse_entry(e: Seq<u8>) -> Option<(Seq<u8>, Seq<u8>)> {
    let j = first_eq(e);
    if j < 0 {
        None
    } else {
        Some((e.take(j), e.skip(j + 1)))
    }
}

/// Parses `n` length-prefixed entries starting at offset `i`; on success
/// returns them and the offset just past them.
pub open spec fn parse_entries(b: Seq<u8>, i: int, n: int) -> Option<
    (Seq<(Seq<u8>, Seq<u8>)>, int),
>
    decreases n,
{
    if n <= 0 {
        Some((Seq::empty(), i))
    } else if 0 <= i && i + 4 <= b.len() {
        let l = le32_val(b.subrange(i, i + 4)) as int;
        if i + 4 + l <= b.len() {
            match parse_entry(b.subrange(i + 4, i + 4 + l)) {
                Some(kv) => match parse_entries(b, i + 4 + l, n - 1) {
                    Some(r) => Some((seq![kv] + r.0, r.1)),
                    None => None,
                },
                None => None,
            }
        } else {
            None
        }
    } else {
        None
    }
}

/// Parses a whole comment header packet. The packet must carry the comment
/// prefix, a well-formed vendor string, exactly the announced entries, and
/// the Vorbis framing byte (low bit set) as its last byte.
pub open spec fn parse_comment_packet(b: Seq<u8>) -> Option<CommentsModel> {
    if has_comment_prefix(b) && b.len() >= 11 {
        let vl = le32_val(b.subrange(7, 11)) as int;
        if 11 + vl + 4 <= b.len() {
            let vendor = b.subrange(11, 11 + vl);
            let n = le32_val(b.subrange(11 + vl, 11 + vl + 4)) as int;
            match parse_entries(b, 11 + vl + 4, n) {
                Some(r) => if r.1 + 1 == b.len() && b[r.1] & 1 == 1 {
                    Some(CommentsModel { vendor, entries: r.0 })
                } else {
                    None
                },
                None => None,
            }
        } else {
            None
        }
    } else {
        None
    }
}

/// A packet is a comment site when it parses as a comment header.
pub open spec fn is_comment_packet(p: Seq<u8>) -> bool {
    parse_comment_packet(p) is Some
}

/// Appends all bytes of `b`.
fn append_bytes(out: &mut Vec<u8>, b: &Vec<u8>)
    ensures
        final(out)@ == old(out)@ + b@,
{
    let mut i: usize = 0;
    while i < b.len()
        invariant
            i <= b.len(),
            out@ == old(out)@ + b@.take(i as int),
        decreases b.len() - i,
    {
        out.push(b[i]);
        i = i + 1;
        proof {
            assert(out@ =~= old(out)@ + b@.take(i as int));
        }
    }
    proof {
        assert(out@ =~= old(out)@ + b@);
    }
}

/// Copies the byte range `lo..hi`.
fn copy_range(b: &Vec<u8>, lo: usize, hi: usize) -> (r: Vec<u8>)
    requires
        lo <= hi <= b.len(),
    ensures
        r@ == b@.subrange(lo as int, hi as int),
{
    let mut out: Vec<u8> = Vec::new();
    let mut i: usize = lo;
    while i < hi
        invariant
            lo <= i <= hi <= b.len(),
            out@ == b@.subrange(lo as int, i as int),
        decreases hi - i,
    {
        out.push(b[i]);
        i = i + 1;
        proof {
            assert(out@ =~= b@.subrange(lo as int, i as int));
        }
    }
    out
}

/// Taking one more entry appends its serialization.
proof fn lemma_build_entries_snoc(es: Seq<(Seq<u8>, Seq<u8>)>, i: int)
    requires
        0 <= i < es.len(),
    ensures
        build_entries(es.take(i + 1)) == build_entries(es.take(i)) + build_entry(
            es[i].0,
            es[i].1,
        ),
    decreases i,
{
    if i == 0 {
        reveal_with_fuel(build_entries, 2);
        assert(es.take(1).drop_first() =~= Seq::<(Seq<u8>, Seq<u8>)>::empty());
        assert(es.take(1)[0] == es[0]);
        assert(build_entries(es.take(1)) =~= build_entry(es[0].0, es[0].1));
        assert(build_entries(es.take(0)) + build_entry(es[0].0, es[0].1) =~= build_entry(
            es[0].0,
            es[0].1,
        ));
    } else {
        lemma_build_entries_snoc(es.drop_first(), i - 1);
        let t = es.drop_first();
        assert(es.take(i + 1).drop_first() =~= t.take(i));
        assert(es.take(i).drop_first() =~= t.take(i - 1));
        assert(t[i - 1] == es[i]);
        assert(build_entries(es.take(i + 1)) == build_entry(es[0].0, es[0].1) + build_entries(
            t.take(i),
        ));
        assert(build_entries(es.take(i)) == build_entry(es[0].0, es[0].1) + build_entries(
            t.take(i - 1),
        ));
        assert(build_entry(es[0].0, es[0].1) + (build_entries(t.take(i - 1)) + build_entry(
            es[i].0,
            es[i].1,
        )) =~= (build_entry(es[0].0, es[0].1) + build_entries(t.take(i - 1))) + build_entry(
            es[i].0,
            es[i].1,
        ));
    }
}

/// Serializes a comment header, or reports that a length field would not fit
/// its 32 bits.
///
/// Failure of this builder is how the library surfaces what would otherwise
/// be a page-builder abort: callers reject the track instead.
pub fn build_comment_packet(c: &VorbisComments) -> (r: Option<Vec<u8>>)
    ensures
        r is Some <==> comments_fit(c@),
        r is Some ==> r->Some_0@ == spec_comment_packet(c@),
{
    if c.vendor.len() as u64 > 0xffff_ffffu64 || c.entries.len() as u64 > 0xffff_ffffu64 {
        return None;
    }
    let mut out: Vec<u8> = Vec::new();
    out.push(3);
    out.push(118);
    out.push(111);
    out.push(114);
    out.push(98);
    out.push(105);
    out.push(115);
    proof {
        assert(out@ =~= comment_prefix());
    }
    push_le32(&mut out, c.vendor.len() as u32);
    append_bytes(&mut out, &c.vendor);
    push_le32(&mut out, c.entries.len() as u32);
    let ghost head = comment_prefix() + le32_bytes(c@.vendor.len() as u32) + c@.vendor + le32_bytes(
        c@.entries.len() as u32,
    );
    proof {
        assert(out@ =~= head);
    }
    let mut i: usize = 0;
    while i < c.entries.len()
        invariant
            i <= c.entries.len(),
            c@.entries.len() == c.entries.len(),
            forall|j: int| 0 <= j < c.entries@.len() ==> c@.entries[j] == (
            c.entries@[j].0@,
            c.entries@[j].1@,
            ),
            out@ == head + build_entries(c@.entries.take(i as int)),
            forall|j: int| 0 <= j < i ==> entry_fits(c@.entries[j].0, c@.entries[j].1),
        decreases c.entries.len() - i,
    {
        let k = &c.entries[i].0;
        let v = &c.entries[i].1;
        if k.len() as u64 > 0xffff_ffffu64 || v.len() as u64 > 0xffff_ffffu64 || (k.len() as u64)
            + 1 + (v.len() as u64) > 0xffff_ffffu64 {
            proof {
                assert(!entry_fits(c@.entries[i as int].0, c@.entries[i as int].1));
            }
            return None;
        }
        let l: u32 = (k.len() as u32) + 1 + (v.len() as u32);
        push_le32(&mut out, l);
        append_bytes(&mut out, k);
        out.push(61);
        append_bytes(&mut out, v);
        proof {
            lemma_build_entries_snoc(c@.entries, i as int);
            assert(entry_bytes(c@.entries[i as int].0, c@.entries[i as int].1) =~= k@ + seq![61u8]
                + v@);
            assert(out@ =~= head + build_entries(c@.entries.take(i as int + 1)));
        }
        i = i + 1;
    }
    out.push(1);
    proof {
        assert(c@.entries.take(i as int) =~= c@.entries);
        assert(out@ =~= spec_comment_packet(c@));
    }
    Some(out)
}

/// Prepends already-parsed entries to the outcome of parsing the rest.
spec fn prepend_entries(
    pre: Seq<(Seq<u8>, Seq<u8>)>,
    r: Option<(Seq<(Seq<u8>, Seq<u8>)>, int)>,
) -> Option<(Seq<(Seq<u8>, Seq<u8>)>, int)> {
    match r {
        Some(t) => Some((pre + t.0, t.1)),
        None => None,
    }
}

/// Finds the first `=` in the byte range `lo..hi`.
fn find_eq(b: &Vec<u8>, lo: usize, hi: usize) -> (r: Option<usize>)
    requires
        lo <= hi <= b.len(),
    ensures
        ({
            let f = first_eq(b@.subrange(lo as int, hi as int));
            match r {
                Some(j) => lo <= j < hi && f == j - lo,
                None => f == -1,
            }
        }),
{
    let ghost s = b@.subrange(lo as int, hi as int);
    proof {
        lemma_first_eq(s);
    }
    let mut i: usize = lo;
    while i < hi
        invariant
            lo <= i <= hi <= b.len(),
            s == b@.subrange(lo as int, hi as int),
            forall|j: int| lo <= j < i ==> b@[j] != 61,
        decreases hi - i,
    {
        if b[i] == 61 {
            proof {
                lemma_first_eq(s);
                assert(s[i - lo] == 61);
                assert(forall|j: int| 0 <= j < i - lo ==> s[j] != 61);
                assert(first_eq(s) == i - lo);
            }
            return Some(i);
        }
        i = i + 1;
    }
    proof {
        lemma_first_eq(s);
        assert(forall|j: int| 0 <= j < s.len() ==> s[j] != 61);
    }
    None
}

/// Parses the entry section: `n` length-prefixed entries from offset `i`.
fn parse_entry_section(b: &Vec<u8>, i: usize, n: u32) -> (r: Option<
    (Vec<(Vec<u8>, Vec<u8>)>, usize),
>)
    requires
        i <= b.len(),
    ensures
        ({
            let spec_r = parse_entries(b@, i as int, n as int);
            match r {
                Some(t) => spec_r == Some(
                    (
                        Seq::new(t.0@.len(), |j: int| (t.0@[j].0@, t.0@[j].1@)),
                        t.1 as int,
                    ),
                ) && t.1 <= b.len(),
                None => spec_r is None,
            }
        }),
{
    let mut acc: Vec<(Vec<u8>, Vec<u8>)> = Vec::new();
    let mut cur: usize = i;
    let mut rem: u32 = n;
    let ghost accm = Seq::<(Seq<u8>, Seq<u8>)>::empty();
    proof {
        assert(accm + parse_entries(b@, cur as int, rem as int)->Some_0.0 =~= parse_entries(
            b@,
            cur as int,
            rem as int,
        )->Some_0.0);
    }
    while rem > 0
        invariant
            cur <= b.len(),
            accm == Seq::new(acc@.len(), |j: int| (acc@[j].0@, acc@[j].1@)),
            parse_entries(b@, i as int, n as int) == prepend_entries(
                accm,
                parse_entries(b@, cur as int, rem as int),
            ),
        decreases rem,
    {
        if b.len() - cur < 4 {
            return None;
        }
        let l = read_le32(b, cur);
        if ((b.len() - cur - 4) as u64) < (l as u64) {
            return None;
        }
        let body_lo = cur + 4;
        let body_hi = cur + 4 + (l as usize);
        let ghost e = b@.subrange(body_lo as int, body_hi as int);
        match find_eq(b, body_lo, body_hi) {
            None => {
                proof {
                    assert(parse_entry(e) is None);
                }
                return None;
            },
            Some(j) => {
                let k = copy_range(b, body_lo, j);
                let v = copy_range(b, j + 1, body_hi);
                proof {
                    assert(parse_entry(e) == Some((e.take(j - body_lo), e.skip(j - body_lo + 1))));
                    assert(e.take(j - body_lo) =~= b@.subrange(body_lo as int, j as int));
                    assert(e.skip(j - body_lo + 1) =~= b@.subrange(j as int + 1, body_hi as int));
                }
                let ghost kv = (k@, v@);
                let ghost next = parse_entries(b@, body_hi as int, rem as int - 1);
                proof {
                    assert(parse_entries(b@, cur as int, rem as int) == prepend_entries(
                        seq![kv],
                        next,
                    ));
                    if next is Some {
                        assert((accm + seq![kv]) + next->Some_0.0 =~= accm + (seq![kv]
                            + next->Some_0.0));
                    }
                }
                acc.push((k, v));
                proof {
                    accm = accm + seq![kv];
                    assert(accm =~= Seq::new(acc@.len(), |j: int| (acc@[j].0@, acc@[j].1@)));
                }
                cur = body_hi;
                rem = rem - 1;
            },
        }
    }
    proof {
        assert(parse_entries(b@, cur as int, 0) == Some((Seq::<(Seq<u8>, Seq<u8>)>::empty(), cur
            as int)));
        assert(accm + Seq::<(Seq<u8>, Seq<u8>)>::empty() =~= accm);
    }
    Some((acc, cur))
}

/// Parses a comment header packet, or reports that the packet is not a
/// well-formed single-packet comment header.
pub fn parse_comment(p: &Vec<u8>) -> (r: Option<VorbisComments>)
    ensures
        r is Some <==> is_comment_packet(p@),
        r is Some ==> parse_comment_packet(p@) == Some(r->Some_0@),
{
    if !starts_like_comment(p) {
        return None;
    }
    if p.len() < 11 {
        return None;
    }
    let vl = read_le32(p, 7);
    if (p.len() as u64) < 11u64 + (vl as u64) + 4u64 {
        return None;
    }
    let vendor_hi = 11 + (vl as usize);
    let vendor = copy_range(p, 11, vendor_hi);
    let n = read_le32(p, vendor_hi);
    match parse_entry_section(p, vendor_hi + 4, n) {
        None => None,
        Some((entries, end)) => {
            if end == p.len() - 1 && p[end] & 1 == 1 {
                let c = VorbisComments { vendor, entries };
                proof {
                    let m = parse_comment_packet(p@)->Some_0;
                    assert(m.vendor == c@.vendor);
                    assert(m.entries == c@.entries);
                    assert(parse_comment_packet(p@) == Some(c@));
                }
                Some(c)
            } else {
                None
            }
        },
    }
}

// ---------------------------------------------------------------------------
// Round-trip facts
// ---------------------------------------------------------------------------

/// No comment key contains `=`.
pub open spec fn keys_eq_free(es: Seq<(Seq<u8>, Seq<u8>)>) -> bool {
    forall|j: int, m: int| 0 <= j < es.len() && 0 <= m < es[j].0.len() ==> es[j].0[m] != 61
}

/// A slice of an embedded byte string is the matching slice of the host.
proof fn lemma_subrange_eq(b: Seq<u8>, i: int, s: Seq<u8>, lo: int, hi: int)
    requires
        0 <= i,
        i + s.len() <= b.len(),
        b.subrange(i, i + s.len() as int) == s,
        0 <= lo <= hi <= s.len(),
    ensures
        b.subrange(i + lo, i + hi) == s.subrange(lo, hi),
{
    assert forall|m: int| 0 <= m < hi - lo implies b.subrange(i + lo, i + hi)[m] == s.subrange(
        lo,
        hi,
    )[m] by {
        assert(b.subrange(i, i + s.len() as int)[lo + m] == b[i + lo + m]);
    }
    assert(b.subrange(i + lo, i + hi) =~= s.subrange(lo, hi));
}

/// Parsing an entry section finds back exactly the entries it was built from.
proof fn lemma_parse_entries_of_build(b: Seq<u8>, i: int, es: Seq<(Seq<u8>, Seq<u8>)>)
    requires
        0 <= i,
        i + build_entries(es).len() <= b.len(),
        b.subrange(i, i + build_entries(es).len() as int) == build_entries(es),
        forall|j: int| 0 <= j < es.len() ==> entry_fits(es[j].0, es[j].1),
        keys_eq_free(es),
    ensures
        parse_entries(b, i, es.len() as int) == Some((es, i + build_entries(es).len() as int)),
    decreases es.len(),
{
    if es.len() == 0 {
        assert(es =~= Seq::<(Seq<u8>, Seq<u8>)>::empty());
    } else {
        let k = es[0].0;
        let v = es[0].1;
        let l = (k.len() + 1 + v.len()) as int;
        let built = build_entries(es);
        let rest = build_entries(es.drop_first());
        assert(entry_fits(k, v));
        assert(built == build_entry(k, v) + rest);
        assert(build_entry(k, v).len() == 4 + l);
        // the length field
        lemma_subrange_eq(b, i, built, 0, 4);
        assert(built.subrange(0, 4) =~= le32_bytes(l as u32));
        lemma_le32_round_trip(l as u32);
        assert(le32_val(b.subrange(i, i + 4)) == l as u32);
        // the entry body
        lemma_subrange_eq(b, i, built, 4, 4 + l);
        let e = b.subrange(i + 4, i + 4 + l);
        assert(built.subrange(4, 4 + l) =~= entry_bytes(k, v));
        assert(e =~= entry_bytes(k, v));
        lemma_first_eq(e);
        assert(e[k.len() as int] == 61);
        assert(forall|m: int| 0 <= m < k.len() ==> e[m] == k[m]);
        assert(forall|m: int| 0 <= m < k.len() ==> e[m] != 61);
        assert(first_eq(e) == k.len());
        assert(e.take(k.len() as int) =~= k);
        assert(e.skip(k.len() as int + 1) =~= v);
        assert(parse_entry(e) == Some((k, v)));
        // the remaining entries
        let i2 = i + 4 + l;
        lemma_subrange_eq(b, i, built, 4 + l, built.len() as int);
        assert(built.subrange(4 + l, built.len() as int) =~= rest);
        assert(b.subrange(i2, i2 + rest.len() as int) == rest);
        assert(forall|j: int| 0 <= j < es.drop_first().len() ==> es.drop_first()[j] == es[j + 1]);
        lemma_parse_entries_of_build(b, i2, es.drop_first());
        assert(seq![(k, v)] + es.drop_first() =~= es);
    }
}

/// Serialize-then-parse returns the comments unchanged, provided every length
/// fits its field and no key contains `=`.
pub proof fn lemma_parse_of_build(c: CommentsModel)
    requires
        comments_fit(c),
        keys_eq_free(c.entries),
    ensures
        parse_comment_packet(spec_comment_packet(c)) == Some(c),
{
    let b = spec_comment_packet(c);
    let vl = c.vendor.len() as int;
    let n = c.entries.len() as int;
    let ebytes = build_entries(c.entries);
    assert(b.len() == 7 + 4 + vl + 4 + ebytes.len() + 1);
    assert(b.subrange(0, 7) =~= comment_prefix());
    assert(has_comment_prefix(b));
    assert(b.subrange(7, 11) =~= le32_bytes(vl as u32));
    lemma_le32_round_trip(vl as u32);
    assert(b.subrange(11, 11 + vl) =~= c.vendor);
    assert(b.subrange(11 + vl, 11 + vl + 4) =~= le32_bytes(n as u32));
    lemma_le32_round_trip(n as u32);
    let i0 = 11 + vl + 4;
    assert(b.subrange(i0, i0 + ebytes.len() as int) =~= ebytes);
    lemma_parse_entries_of_build(b, i0, c.entries);
    let end = i0 + ebytes.len() as int;
    assert(parse_entries(b, i0, n) == Some((c.entries, end)));
    assert(b[end] == 1);
    assert(1u8 & 1 == 1) by (bit_vector);
    assert(parse_comment_packet(b) == Some(CommentsModel { vendor: c.vendor, entries: c.entries }));
    assert((CommentsModel { vendor: c.vendor, entries: c.entries }) == c);
}

/// Parsing a built entry section succeeds and stops just past it, whatever
/// the keys hold: every built entry carries at least the `=` written between
/// its key and its value.
proof fn lemma_built_entries_parse(b: Seq<u8>, i: int, es: Seq<(Seq<u8>, Seq<u8>)>)
    requires
        0 <= i,
        i + build_entries(es).len() <= b.len(),
        b.subrange(i, i + build_entries(es).len() as int) == build_entries(es),
        forall|j: int| 0 <= j < es.len() ==> entry_fits(es[j].0, es[j].1),
    ensures
        parse_entries(b, i, es.len() as int) is Some,
        parse_entries(b, i, es.len() as int)->Some_0.1 == i + build_entries(es).len() as int,
    decreases es.len(),
{
    if es.len() > 0 {
        let k = es[0].0;
        let v = es[0].1;
        let l = (k.len() + 1 + v.len()) as int;
        let built = build_entries(es);
        let rest = build_entries(es.drop_first());
        assert(entry_fits(k, v));
        assert(built == build_entry(k, v) + rest);
        assert(build_entry(k, v).len() == 4 + l);
        lemma_subrange_eq(b, i, built, 0, 4);
        assert(built.subrange(0, 4) =~= le32_bytes(l as u32));
        lemma_le32_round_trip(l as u32);
        lemma_subrange_eq(b, i, built, 4, 4 + l);
        let e = b.subrange(i + 4, i + 4 + l);
        assert(built.subrange(4, 4 + l) =~= entry_bytes(k, v));
        assert(e =~= entry_bytes(k, v));
        lemma_first_eq(e);
        assert(e[k.len() as int] == 61);
        assert(first_eq(e) >= 0);
        assert(parse_entry(e) is Some);
        let i2 = i + 4 + l;
        lemma_subrange_eq(b, i, built, 4 + l, built.len() as int);
        assert(built.subrange(4 + l, built.len() as int) =~= rest);
        assert(forall|j: int| 0 <= j < es.drop_first().len() ==> es.drop_first()[j] == es[j + 1]);
        lemma_built_entries_parse(b, i2, es.drop_first());
    }
}

/// A built comment packet parses, whatever its keys hold.
pub proof fn lemma_built_packet_parses(c: CommentsModel)
    requires
        comments_fit(c),
    ensures
        parse_comment_packet(spec_comment_packet(c)) is Some,
{
    let b = spec_comment_packet(c);
    let vl = c.vendor.len() as int;
    let n = c.entries.len() as int;
    let ebytes = build_entries(c.entries);
    assert(b.len() == 7 + 4 + vl + 4 + ebytes.len() + 1);
    assert(b.subrange(0, 7) =~= comment_prefix());
    assert(has_comment_prefix(b));
    assert(b.subrange(7, 11) =~= le32_bytes(vl as u32));
    lemma_le32_round_trip(vl as u32);
    assert(b.subrange(11 + vl, 11 + vl + 4) =~= le32_bytes(n as u32));
    lemma_le32_round_trip(n as u32);
    let i0 = 11 + vl + 4;
    assert(b.subrange(i0, i0 + ebytes.len() as int) =~= ebytes);
    lemma_built_entries_parse(b, i0, c.entries);
    let end = i0 + ebytes.len() as int;
    assert(b[end] == 1);
    assert(1u8 & 1 == 1) by (bit_vector);
}

/// Whatever an entry section parses to fits back into the length fields and
/// has `=`-free keys.
proof fn lemma_parse_entries_props(b: Seq<u8>, i: int, n: int)
    requires
        parse_entries(b, i, n) is Some,
    ensures
        ({
            let es = parse_entries(b, i, n)->Some_0.0;
            &&& es.len() == if n <= 0 { 0int } else { n }
            &&& forall|j: int| 0 <= j < es.len() ==> entry_fits(es[j].0, es[j].1)
            &&& keys_eq_free(es)
        }),
    decreases n,
{
    if n > 0 {
        let l = le32_val(b.subrange(i, i + 4)) as int;
        let e = b.subrange(i + 4, i + 4 + l);
        lemma_first_eq(e);
        let j = first_eq(e);
        let k = e.take(j);
        let v = e.skip(j + 1);
        assert(k.len() + 1 + v.len() == l);
        assert(forall|m: int| 0 <= m < k.len() ==> k[m] == e[m]);
        lemma_parse_entries_props(b, i + 4 + l, n - 1);
        let rest = parse_entries(b, i + 4 + l, n - 1)->Some_0.0;
        let es = parse_entries(b, i, n)->Some_0.0;
        assert(es == seq![(k, v)] + rest);
        assert(forall|q: int| 0 < q < es.len() ==> es[q] == rest[q - 1]);
    }
}

/// Whatever a comment packet parses to can be rebuilt: the lengths fit and
/// the keys are `=`-free.
pub proof fn lemma_parsed_comments_fit(b: Seq<u8>)
    requires
        parse_comment_packet(b) is Some,
    ensures
        comments_fit(parse_comment_packet(b)->Some_0),
        keys_eq_free(parse_comment_packet(b)->Some_0.entries),
{
    let vl = le32_val(b.subrange(7, 11)) as int;
    let n = le32_val(b.subrange(11 + vl, 11 + vl + 4)) as int;
    lemma_parse_entries_props(b, 11 + vl + 4, n);
}

} // verus!
