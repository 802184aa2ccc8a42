//! Logical and port segments of class/instance/attribute paths.
use vstd::prelude::*;
use crate::le::le16;

verus! {

/// One segment of a CIP path.
#[derive(Clone, Copy, Debug, PartialEq, Eq)]
pub enum PathSegment {
    Port { port: u8, link: u8 },
    Class(u16),
    Instance(u16),
    Attribute(u16),
}

/// The bytes of one segment: a port segment padded to four bytes, 8-bit
/// logical segments below 0x100 and 16-bit ones above (attributes always
/// take the low byte).
pub open spec fn segment_bytes(seg: PathSegment) -> Seq<u8> {
    match seg {
        PathSegment::Port { port, link } => seq![port, link, 0u8, 0u8],
        PathSegment::Class(id) => if id < 0x100 {
            seq![0x20u8, id as u8]
        } else {
            seq![0x21u8, (id % 256) as u8, (id / 256) as u8]
        },
        PathSegment::Instance(id) => if id < 0x100 {
            seq![0x24u8, id as u8]
        } else {
            seq![0x25u8, (id % 256) as u8, (id / 256) as u8]
        },
        PathSegment::Attribute(id) => seq![0x30u8, (id % 256) as u8],
    }
}

/// The bytes of all segments, in order.
pub open spec fn segments_bytes(segs: Seq<PathSegment>) -> Seq<u8>
    decreases segs.len(),
{
    if segs.len() == 0 {
        Seq::<u8>::empty()
    } else {
        segments_bytes(segs.drop_last()) + segment_bytes(segs.last())
    }
}

/// A path: its size in words, then its segments.
pub open spec fn spec_encode_path(segs: Seq<PathSegment>) -> Seq<u8> {
    seq![(segments_bytes(segs).len() / 2) as u8] + segments_bytes(segs)
}

impl PathSegment {
    fn encode(&self, out: &mut Vec<u8>)
        ensures
            final(out)@ == old(out)@ + segment_bytes(*self),
    {
        match *self {
            PathSegment::Port { port, link } => {
                out.push(port);
                out.push(link);
                out.push(0x00);
                out.push(0x00);
            },
            PathSegment::Class(id) => {
                if id < 0x100 {
                    out.push(0x20);
                    out.push(id as u8);
                } else {
                    out.push(0x21);
                    out.push((id % 256) as u8);
                    out.push((id / 256) as u8);
                }
            },
            PathSegment::Instance(id) => {
                if id < 0x100 {
                    out.push(0x24);
                    out.push(id as u8);
                } else {
                    out.push(0x25);
                    out.push((id % 256) as u8);
                    out.push((id / 256) as u8);
                }
            },
            PathSegment::Attribute(id) => {
                out.push(0x30);
                out.push((id % 256) as u8);
            },
        }
        assert(final(out)@ =~= old(out)@ + segment_bytes(*self));
    }
}

/// Encodes a path: the size in words, then each segment.
pub fn encode_path(segments: &[PathSegment]) -> (out: Vec<u8>)
    ensures
        out@ == spec_encode_path(segments@),
{
    let mut raw: Vec<u8> = Vec::new();
    let mut i: usize = 0;
    while i < segments.len()
        invariant
            i <= segments@.len(),
            raw@ == segments_bytes(segments@.subrange(0, i as int)),
        decreases segments@.len() - i,
    {
        segments[i].encode(&mut raw);
        proof {
            let pre = segments@.subrange(0, i + 1);
            assert(pre.drop_last() =~= segments@.subrange(0, i as int));
        }
        i = i + 1;
    }
    assert(segments@.subrange(0, i as int) =~= segments@);
    let mut out = Vec::new();
    out.push((raw.len() / 2) as u8);
    crate::le::push_all(&mut out, raw.as_slice());
    out
}

/// A logical segment carries its id. Below 0x100 a class or instance id
/// takes an 8-bit segment (0x20, 0x24) whose data byte is the id; from
/// 0x100 on, a 16-bit segment (0x21, 0x25) whose two data bytes hold the id
/// little-endian. An attribute segment (0x30) carries the id's low byte.
pub proof fn lemma_segment_ids(id: u16)
    ensures
        ({
            let c = segment_bytes(PathSegment::Class(id));
            let i = segment_bytes(PathSegment::Instance(id));
            let a = segment_bytes(PathSegment::Attribute(id));
            &&& id < 0x100 ==> c.len() == 2 && c[0] == 0x20 && c[1] == id
            &&& id < 0x100 ==> i.len() == 2 && i[0] == 0x24 && i[1] == id
            &&& id >= 0x100 ==> c.len() == 3 && c[0] == 0x21 && le16(c, 1) == id
            &&& id >= 0x100 ==> i.len() == 3 && i[0] == 0x25 && le16(i, 1) == id
            &&& a.len() == 2 && a[0] == 0x30 && a[1] == id % 256
        }),
{
}

/// A path is its segments in order: adding a segment at the end adds its
/// bytes at the end.
pub proof fn lemma_segments_in_order(segs: Seq<PathSegment>, seg: PathSegment)
    ensures
        segments_bytes(segs.push(seg)) == segments_bytes(segs) + segment_bytes(seg),
{
    assert(segs.push(seg).drop_last() =~= segs);
}

} // verus!
