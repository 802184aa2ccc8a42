//! EPATH encoding of symbolic tag references ("Tag", "Struct.Member",
//! "Array[3]", "Array[1,2]") and of backplane slot routing.
use vstd::prelude::*;
use vstd::string::StringSliceAdditionalSpecFns;
use crate::le::{le16, le32, lemma_le16_at, lemma_le32_at, push_all, push_u16, push_u32, u16_bytes, u32_bytes};
use crate::cip::tag_text::{
    find_byte, first_index, lemma_first_index_bounds, lemma_first_index_is, parse_index, parse_index_at,
};

verus! {

/// A byte that continues a multi-byte UTF-8 character.
pub open spec fn is_continuation(b: u8) -> bool {
    0x80 <= b < 0xC0
}

/// ANSI extended symbol segment (0x91) for one name, padded to an even
/// length.
pub open spec fn symbol_segment(name: Seq<u8>) -> Seq<u8> {
    seq![0x91u8, name.len() as u8] + name + (if name.len() % 2 == 1 {
        seq![0u8]
    } else {
        Seq::<u8>::empty()
    })
}

/// Member (element) segment for one array subscript: 8-bit (0x28), 16-bit
/// (0x29) or 32-bit (0x2A) by the size of the subscript.
pub open spec fn index_segment(idx: u32) -> Seq<u8> {
    if idx <= 0xFF {
        seq![0x28u8, idx as u8]
    } else if idx <= 0xFFFF {
        seq![0x29u8, 0u8] + u16_bytes(idx as int)
    } else {
        seq![0x2Au8, 0u8] + u32_bytes(idx as int)
    }
}

/// The segments of a comma-separated subscript list.
pub open spec fn index_list_segments(s: Seq<u8>) -> Seq<u8>
    decreases s.len(),
{
    let k = first_index(s, 44);
    proof {
        lemma_first_index_bounds(s, 44);
    }
    index_segment(parse_index(s.subrange(0, k))) + if k >= s.len() {
        Seq::<u8>::empty()
    } else {
        index_list_segments(s.subrange(k + 1, s.len() as int))
    }
}

/// The segments of one dot-separated part: its name, then one segment per
/// subscript. The text between the first `[` and the last byte of the part
/// holds the subscripts.
pub open spec fn part_segments(p: Seq<u8>) -> Seq<u8> {
    let j = first_index(p, 91);
    if j >= p.len() {
        symbol_segment(p)
    } else {
        symbol_segment(p.subrange(0, j)) + index_list_segments(p.subrange(j + 1, p.len() - 1))
    }
}

/// The segments of a whole tag reference, part after part.
pub open spec fn epath_segments(t: Seq<u8>) -> Seq<u8>
    decreases t.len(),
{
    let k = first_index(t, 46);
    proof {
        lemma_first_index_bounds(t, 46);
    }
    part_segments(t.subrange(0, k)) + if k >= t.len() {
        Seq::<u8>::empty()
    } else {
        epath_segments(t.subrange(k + 1, t.len() as int))
    }
}

/// The EPATH of a tag: its size in 16-bit words, then its segments.
pub open spec fn spec_encode_epath(t: Seq<u8>) -> Seq<u8> {
    seq![(epath_segments(t).len() / 2) as u8] + epath_segments(t)
}

/// A part whose subscripts can be cut out: after its first `[` it has at
/// least one more byte, and both ends of the subscript text fall on
/// character boundaries.
pub open spec fn part_ok(p: Seq<u8>) -> bool {
    let j = first_index(p, 91);
    j >= p.len() || (p.len() >= j + 2 && !is_continuation(p[j + 1]) && !is_continuation(
        p[p.len() - 1],
    ))
}

/// Every part of the tag reference can be encoded.
pub open spec fn tag_ok(t: Seq<u8>) -> bool
    decreases t.len(),
{
    let k = first_index(t, 46);
    proof {
        lemma_first_index_bounds(t, 46);
    }
    part_ok(t.subrange(0, k)) && (k >= t.len() || tag_ok(t.subrange(k + 1, t.len() as int)))
}

/// The member segment for one array subscript.
pub fn encode_array_index_segment(idx: u32) -> (buf: Vec<u8>)
    ensures
        buf@ == index_segment(idx),
{
    let mut buf = Vec::new();
    if idx > 0xFFFF {
        buf.push(0x2A);
        buf.push(0x00);
        push_u32(&mut buf, idx);
    } else if idx > 0xFF {
        buf.push(0x29);
        buf.push(0x00);
        push_u16(&mut buf, idx as u16);
    } else {
        buf.push(0x28);
        buf.push(idx as u8);
    }
    assert(buf@ =~= index_segment(idx));
    buf
}

fn push_symbol_segment(out: &mut Vec<u8>, b: &[u8], start: usize, end: usize)
    requires
        start <= end <= b@.len(),
    ensures
        final(out)@ == old(out)@ + symbol_segment(b@.subrange(start as int, end as int)),
{
    let n = end - start;
    out.push(0x91);
    out.push(n as u8);
    let ghost mid = out@;
    let mut i = start;
    while i < end
        invariant
            start <= i <= end,
            end <= b@.len(),
            out@ == mid + b@.subrange(start as int, i as int),
        decreases end - i,
    {
        out.push(b[i]);
        i = i + 1;
        assert(out@ =~= mid + b@.subrange(start as int, i as int));
    }
    if n % 2 != 0 {
        out.push(0x00);
    }
    assert(final(out)@ =~= old(out)@ + symbol_segment(b@.subrange(start as int, end as int)));
}

fn push_index_list(out: &mut Vec<u8>, b: &[u8], start: usize, end: usize)
    requires
        start <= end <= b@.len(),
    ensures
        final(out)@ == old(out)@ + index_list_segments(b@.subrange(start as int, end as int)),
{
    let ghost out0 = out@;
    let ghost whole = b@.subrange(start as int, end as int);
    let mut pos = start;
    loop
        invariant_except_break
            out@ + index_list_segments(b@.subrange(pos as int, end as int)) == out0
                + index_list_segments(whole),
        invariant
            start <= pos <= end,
            end <= b@.len(),
            whole == b@.subrange(start as int, end as int),
        ensures
            out@ == out0 + index_list_segments(whole),
        decreases end - pos,
    {
        let ghost sub = b@.subrange(pos as int, end as int);
        let ghost before = out@;
        let k = find_byte(b, pos, end, 44);
        let v = parse_index_at(b, pos, k);
        let seg = encode_array_index_segment(v);
        push_all(out, seg.as_slice());
        proof {
            lemma_first_index_bounds(sub, 44);
            assert(sub.subrange(0, k - pos) =~= b@.subrange(pos as int, k as int));
        }
        if k == end {
            assert(out@ =~= before + index_list_segments(sub));
            break;
        }
        proof {
            assert(sub.subrange(k - pos + 1, sub.len() as int) =~= b@.subrange(k + 1, end as int));
            assert(index_list_segments(sub) == index_segment(v) + index_list_segments(
                b@.subrange(k + 1, end as int),
            ));
            assert(out@ + index_list_segments(b@.subrange(k + 1, end as int)) =~= before
                + index_list_segments(sub));
        }
        pos = k + 1;
    }
}

fn push_part(out: &mut Vec<u8>, b: &[u8], start: usize, end: usize)
    requires
        start <= end <= b@.len(),
        part_ok(b@.subrange(start as int, end as int)),
    ensures
        final(out)@ == old(out)@ + part_segments(b@.subrange(start as int, end as int)),
{
    let ghost p = b@.subrange(start as int, end as int);
    let j = find_byte(b, start, end, 91);
    proof {
        lemma_first_index_bounds(p, 91);
    }
    if j == end {
        push_symbol_segment(out, b, start, end);
    } else {
        push_symbol_segment(out, b, start, j);
        push_index_list(out, b, j + 1, end - 1);
        proof {
            assert(p.subrange(0, j - start) =~= b@.subrange(start as int, j as int));
            assert(p.subrange(j - start + 1, p.len() - 1) =~= b@.subrange(j + 1, end - 1));
        }
        assert(final(out)@ =~= old(out)@ + part_segments(p));
    }
}

/// The segments of the whole tag reference held in `b`.
fn epath_segments_of(b: &[u8]) -> (segs: Vec<u8>)
    requires
        tag_ok(b@),
    ensures
        segs@ == epath_segments(b@),
{
    let mut segs: Vec<u8> = Vec::new();
    let end = b.len();
    let mut pos: usize = 0;
    proof {
        assert(b@.subrange(0, end as int) =~= b@);
    }
    loop
        invariant_except_break
            tag_ok(b@.subrange(pos as int, end as int)),
            segs@ + epath_segments(b@.subrange(pos as int, end as int)) == epath_segments(b@),
        invariant
            pos <= end,
            end == b@.len(),
        ensures
            segs@ == epath_segments(b@),
        decreases end - pos,
    {
        let ghost sub = b@.subrange(pos as int, end as int);
        let ghost before = segs@;
        let k = find_byte(b, pos, end, 46);
        proof {
            lemma_first_index_bounds(sub, 46);
            assert(sub.subrange(0, k - pos) =~= b@.subrange(pos as int, k as int));
        }
        push_part(&mut segs, b, pos, k);
        if k == end {
            assert(segs@ =~= before + epath_segments(sub));
            break;
        }
        proof {
            assert(sub.subrange(k - pos + 1, sub.len() as int) =~= b@.subrange(k + 1, end as int));
            assert(segs@ + epath_segments(b@.subrange(k + 1, end as int)) =~= before
                + epath_segments(sub));
        }
        pos = k + 1;
    }
    segs
}

fn part_is_ok(b: &[u8], start: usize, end: usize) -> (r: bool)
    requires
        start <= end <= b@.len(),
    ensures
        r == part_ok(b@.subrange(start as int, end as int)),
{
    let ghost p = b@.subrange(start as int, end as int);
    let j = find_byte(b, start, end, 91);
    proof {
        lemma_first_index_bounds(p, 91);
    }
    if j == end {
        return true;
    }
    if end - j < 2 {
        return false;
    }
    assert(p[j - start + 1] == b@[j + 1]);
    assert(p[p.len() - 1] == b@[end - 1]);
    !(0x80 <= b[j + 1] && b[j + 1] < 0xC0) && !(0x80 <= b[end - 1] && b[end - 1] < 0xC0)
}

/// Whether `encode_epath` accepts the tag reference: every part that has a
/// subscript has at least one byte after its `[`, and its subscript text
/// starts and ends on character boundaries.
pub fn tag_path_is_encodable(tag: &str) -> (r: bool)
    ensures
        r == tag_ok(tag.spec_bytes()),
{
    let b = tag.as_bytes();
    let end = b.len();
    let mut pos: usize = 0;
    assert(b@.subrange(0, end as int) =~= b@);
    loop
        invariant
            pos <= end,
            end == b@.len(),
            b@ == tag.spec_bytes(),
            tag_ok(b@) == tag_ok(b@.subrange(pos as int, end as int)),
        decreases end - pos,
    {
        let ghost sub = b@.subrange(pos as int, end as int);
        let k = find_byte(b, pos, end, 46);
        proof {
            lemma_first_index_bounds(sub, 46);
            assert(sub.subrange(0, k - pos) =~= b@.subrange(pos as int, k as int));
        }
        if !part_is_ok(b, pos, k) {
            return false;
        }
        if k == end {
            return true;
        }
        proof {
            assert(sub.subrange(k - pos + 1, sub.len() as int) =~= b@.subrange(k + 1, end as int));
        }
        pos = k + 1;
    }
}

/// Each symbol segment and each member segment has an even number of
/// bytes, so the segments of a tag fill whole 16-bit words.
pub proof fn lemma_segments_even(t: Seq<u8>)
    ensures
        epath_segments(t).len() % 2 == 0,
    decreases t.len(),
{
    let k = first_index(t, 46);
    lemma_first_index_bounds(t, 46);
    lemma_part_even(t.subrange(0, k));
    if k < t.len() {
        lemma_segments_even(t.subrange(k + 1, t.len() as int));
    }
}

proof fn lemma_part_even(p: Seq<u8>)
    ensures
        part_segments(p).len() % 2 == 0,
{
    let j = first_index(p, 91);
    lemma_first_index_bounds(p, 91);
    if j < p.len() {
        lemma_index_list_even(p.subrange(j + 1, p.len() - 1));
    }
}

proof fn lemma_index_list_even(s: Seq<u8>)
    ensures
        index_list_segments(s).len() % 2 == 0,
    decreases s.len(),
{
    let k = first_index(s, 44);
    lemma_first_index_bounds(s, 44);
    if k < s.len() {
        lemma_index_list_even(s.subrange(k + 1, s.len() as int));
    }
}

/// The leading byte of an EPATH counts its 16-bit words: whenever the
/// segments are shorter than 512 bytes, twice the count is their length.
pub proof fn lemma_epath_word_count(t: Seq<u8>)
    ensures
        spec_encode_epath(t) == seq![(epath_segments(t).len() / 2) as u8] + epath_segments(t),
        epath_segments(t).len() < 512 ==> 2 * spec_encode_epath(t)[0] == epath_segments(t).len(),
{
    lemma_segments_even(t);
}

/// Without a slot, the routed EPATH is the plain EPATH; with one, a port
/// segment to that slot on the backplane comes first and the word count
/// grows by two.
pub proof fn lemma_slot_routing(t: Seq<u8>, s: u8)
    ensures
        spec_encode_epath_with_slot(t, None) == spec_encode_epath(t),
        spec_encode_epath_with_slot(t, Some(s)).subrange(1, 5) == seq![0x01u8, s, 0x00u8, 0x00u8],
        spec_encode_epath_with_slot(t, Some(s)).subrange(5, spec_encode_epath_with_slot(t, Some(s)).len() as int)
            == epath_segments(t),
        epath_segments(t).len() < 508 ==> 2 * spec_encode_epath_with_slot(t, Some(s))[0] == 4
            + epath_segments(t).len(),
{
    lemma_segments_even(t);
    let r = spec_encode_epath_with_slot(t, Some(s));
    assert(r.subrange(1, 5) =~= seq![0x01u8, s, 0x00u8, 0x00u8]);
    assert(r.subrange(5, r.len() as int) =~= epath_segments(t));
}

proof fn lemma_dot_split(a: Seq<u8>, b: Seq<u8>)
    ensures
        ({
            let t = a + seq![46u8] + b;
            let k = first_index(a, 46);
            &&& k >= a.len() ==> first_index(t, 46) == a.len() && t.subrange(0, a.len() as int) == a
                && t.subrange(a.len() as int + 1, t.len() as int) == b
            &&& k < a.len() ==> first_index(t, 46) == k && t.subrange(0, k) == a.subrange(0, k)
                && t.subrange(k + 1, t.len() as int) == a.subrange(k + 1, a.len() as int) + seq![46u8]
                + b
        }),
{
    let t = a + seq![46u8] + b;
    let k = first_index(a, 46);
    lemma_first_index_bounds(a, 46);
    if k >= a.len() {
        assert forall|j: int| 0 <= j < a.len() implies t[j] != 46 by {
            assert(t[j] == a[j]);
        }
        lemma_first_index_is(t, 46, a.len() as int);
        assert(t.subrange(0, a.len() as int) =~= a);
        assert(t.subrange(a.len() as int + 1, t.len() as int) =~= b);
    } else {
        assert forall|j: int| 0 <= j < k implies t[j] != 46 by {
            assert(t[j] == a[j]);
        }
        assert(t[k] == a[k]);
        lemma_first_index_is(t, 46, k);
        assert(t.subrange(0, k) =~= a.subrange(0, k));
        assert(t.subrange(k + 1, t.len() as int) =~= a.subrange(k + 1, a.len() as int) + seq![46u8] + b);
    }
}

/// Joining two tag references with a dot joins their segments: the
/// reference `a.b` can be encoded exactly when `a` and `b` can, its segments
/// are those of `a` followed by those of `b`, and, while the count fits its
/// byte, its word count is the sum of theirs.
pub proof fn lemma_dot_join(a: Seq<u8>, b: Seq<u8>)
    ensures
        tag_ok(a + seq![46u8] + b) == (tag_ok(a) && tag_ok(b)),
        epath_segments(a + seq![46u8] + b) == epath_segments(a) + epath_segments(b),
        epath_segments(a).len() + epath_segments(b).len() < 512 ==> spec_encode_epath(
            a + seq![46u8] + b,
        ) == seq![(spec_encode_epath(a)[0] + spec_encode_epath(b)[0]) as u8] + epath_segments(a)
            + epath_segments(b),
    decreases a.len(),
{
    let t = a + seq![46u8] + b;
    let k = first_index(a, 46);
    lemma_first_index_bounds(a, 46);
    lemma_dot_split(a, b);
    if k < a.len() {
        let rest = a.subrange(k + 1, a.len() as int);
        lemma_dot_join(rest, b);
        let tail = t.subrange(k + 1, t.len() as int);
        assert(tail == rest + seq![46u8] + b);
        assert(epath_segments(t) == part_segments(a.subrange(0, k)) + epath_segments(tail));
        assert(epath_segments(a) == part_segments(a.subrange(0, k)) + epath_segments(rest));
        assert(tag_ok(t) == (part_ok(a.subrange(0, k)) && tag_ok(tail)));
        assert(tag_ok(a) == (part_ok(a.subrange(0, k)) && tag_ok(rest)));
        assert(epath_segments(t) =~= epath_segments(a) + epath_segments(b));
    } else {
        assert(a.subrange(0, a.len() as int) =~= a);
        assert(epath_segments(t) == part_segments(a) + epath_segments(b));
        assert(epath_segments(a) =~= part_segments(a));
        assert(tag_ok(t) == (part_ok(a) && tag_ok(b)));
        assert(tag_ok(a) == part_ok(a));
        assert(epath_segments(t) =~= epath_segments(a) + epath_segments(b));
    }
    lemma_segments_even(a);
    lemma_segments_even(b);
}

/// Encodes a tag reference like "Tag", "Struct.Member", "Array[3]" or
/// "Array[1,2]": one symbol segment per dot-separated part, one member
/// segment per subscript, prefixed by the path size in words.
pub fn encode_epath(tag: &str) -> (out: Vec<u8>)
    requires
        tag_ok(tag.spec_bytes()),
    ensures
        out@ == spec_encode_epath(tag.spec_bytes()),
{
    let b = tag.as_bytes();
    let segs = epath_segments_of(b);
    let mut out = Vec::new();
    out.push((segs.len() / 2) as u8);
    push_all(&mut out, segs.as_slice());
    out
}

} // verus!

verus! {

/// A backplane port segment (port 1) with a single pad byte.
pub fn encode_port_segment(slot: u8) -> (out: Vec<u8>)
    ensures
        out@ == seq![0x01u8, slot, 0x00u8],
{
    let mut out = Vec::new();
    out.push(0x01);
    out.push(slot);
    out.push(0x00);
    assert(out@ =~= seq![0x01u8, slot, 0x00u8]);
    out
}

/// The EPATH of a tag, routed through the backplane to `slot` when one is
/// given: the word count grows by two and a four-byte port segment (port 1,
/// the slot, two pad bytes) comes before the tag's segments.
pub open spec fn spec_encode_epath_with_slot(t: Seq<u8>, slot: Option<u8>) -> Seq<u8> {
    match slot {
        None => spec_encode_epath(t),
        Some(s) => seq![(2 + ((epath_segments(t).len() / 2) as u8)) as u8, 0x01u8, s, 0x00u8, 0x00u8]
            + epath_segments(t),
    }
}

pub fn encode_epath_with_slot(tag: &str, slot: Option<u8>) -> (out: Vec<u8>)
    requires
        tag_ok(tag.spec_bytes()),
    ensures
        out@ == spec_encode_epath_with_slot(tag.spec_bytes(), slot),
{
    let tag_epath = encode_epath(tag);
    let tag_words = tag_epath[0] as usize;
    if let Some(slot) = slot {
        let mut out = Vec::new();
        let total_words = 2 + tag_words;
        out.push(total_words as u8);
        out.push(0x01);
        out.push(slot);
        out.push(0x00);
        out.push(0x00);
        let tag_segments = &tag_epath.as_slice()[1..tag_epath.len()];
        push_all(&mut out, tag_segments);
        assert(tag_segments@ =~= epath_segments(tag.spec_bytes()));
        out
    } else {
        tag_epath
    }
}

/// A subscript reads back from its member segment: below 0x100 an 8-bit
/// segment (0x28) whose data byte is the subscript; below 0x10000 a 16-bit
/// segment (0x29, a zero pad byte) holding it little-endian; beyond that a
/// 32-bit segment (0x2A, a zero pad byte) holding it little-endian.
pub proof fn lemma_index_segment_reads_back(idx: u32)
    ensures
        ({
            let s = index_segment(idx);
            &&& idx < 0x100 ==> s.len() == 2 && s[0] == 0x28 && s[1] == idx
            &&& 0x100 <= idx < 0x10000 ==> s.len() == 4 && s[0] == 0x29 && s[1] == 0 && le16(s, 2) == idx
            &&& 0x10000 <= idx ==> s.len() == 6 && s[0] == 0x2A && s[1] == 0 && le32(s, 2) == idx
        }),
{
    let s = index_segment(idx);
    if 0x100 <= idx < 0x10000 {
        assert(s.subrange(2, 4) =~= u16_bytes(idx as int));
        lemma_le16_at(s, 2, idx as int);
    } else if 0x10000 <= idx {
        assert(s.subrange(2, 6) =~= u32_bytes(idx as int));
        lemma_le32_at(s, 2, idx as int);
    }
}

/// A name reads back from its symbol segment: 0x91, the name's length, the
/// name, and one zero byte after a name of odd length, so that the segment
/// fills whole 16-bit words.
pub proof fn lemma_symbol_segment_reads_back(name: Seq<u8>)
    requires
        name.len() < 256,
    ensures
        ({
            let s = symbol_segment(name);
            &&& s[0] == 0x91
            &&& s[1] == name.len()
            &&& s.subrange(2, 2 + name.len() as int) == name
            &&& s.len() == 2 + name.len() + name.len() % 2
            &&& name.len() % 2 == 1 ==> s[s.len() - 1] == 0
        }),
{
    let s = symbol_segment(name);
    assert(s.subrange(2, 2 + name.len() as int) =~= name);
}

} // verus!
