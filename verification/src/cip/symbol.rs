//! Symbol browsing: the Get Attribute List request on the Symbol object and
//! the parser of its reply records.
use vstd::prelude::*;
use crate::le::{get_u16, le16, push_u16, u16_bytes};
use crate::text::{utf8_text, text_from_utf8_lossy};
use crate::types::{spec_type_of_code, CipType, SymbolInfo};

verus! {

/// Get Attribute List (0x03) on the Symbol object (class 0x6B, instance 0)
/// for attributes 1 (name), 2 (type) and 5 (dimensions).
pub open spec fn spec_symbol_browse_request() -> Seq<u8> {
    seq![0x03u8, 0x02u8, 0x20u8, 0x6Bu8, 0x24u8, 0x00u8] + u16_bytes(3) + u16_bytes(1) + u16_bytes(2)
        + u16_bytes(5)
}

pub fn build_symbol_browse_request() -> (cip: Vec<u8>)
    ensures
        cip@ == spec_symbol_browse_request(),
{
    let mut cip = Vec::new();
    cip.push(0x03);
    cip.push(0x02);
    cip.push(0x20);
    cip.push(0x6B);
    cip.push(0x24);
    cip.push(0x00);
    push_u16(&mut cip, 3);
    push_u16(&mut cip, 1);
    push_u16(&mut cip, 2);
    push_u16(&mut cip, 5);
    assert(cip@ =~= spec_symbol_browse_request());
    cip
}

/// What the record that starts at a position gives.
pub enum RecordStep {
    /// The reply ends inside the record.
    Stop,
    /// The record has an unknown type; parsing goes on at the position.
    Skip(usize),
    /// A symbol: its name's start and length, type, dimensions and the
    /// position of the next record.
    Item(usize, usize, CipType, Option<(u16, u16, u16)>, usize),
}

pub open spec fn min(a: int, b: int) -> int {
    if a < b {
        a
    } else {
        b
    }
}

/// The `k`-th dimension: read when the reply still holds it, else 0.
pub open spec fn dim(buf: Seq<u8>, p: int, read: int, k: int) -> u16 {
    if k < read {
        le16(buf, p + 2 * k) as u16
    } else {
        0
    }
}

/// One record: status and name (length byte, bytes, a zero pad after an odd
/// length), status and type code (two bytes), status and dimension count,
/// up to three 16-bit dimensions, and an optional two-byte zero trailer.
/// Dimensions that are all zero mean a scalar.
pub open spec fn record_at(buf: Seq<u8>, pos: int) -> RecordStep {
    let len = buf.len() as int;
    let p1 = pos + 2;
    if p1 > len || p1 + 1 > len {
        RecordStep::Stop
    } else {
        let n = buf[p1] as int;
        let p2 = p1 + 1;
        if p2 + n > len {
            RecordStep::Stop
        } else {
            let p3 = p2 + n;
            let p4 = if n % 2 == 1 && p3 < len && buf[p3] == 0 {
                p3 + 1
            } else {
                p3
            };
            if p4 + 2 > len || p4 + 4 > len {
                RecordStep::Stop
            } else {
                let p5 = p4 + 2;
                let p6 = p5 + 2;
                match spec_type_of_code(buf[p5] as int) {
                    None => RecordStep::Skip(p6 as usize),
                    Some(typ) => record_tail(buf, p6, typ, p2, n),
                }
            }
        }
    }
}

/// The dimensions and trailer of a record whose type is known; `p6` is the
/// position of the dimensions' status.
pub open spec fn record_tail(buf: Seq<u8>, p6: int, typ: CipType, name_start: int, n: int) -> RecordStep {
    let len = buf.len() as int;
    if p6 + 2 > len || p6 + 3 > len {
        RecordStep::Stop
    } else {
        let p8 = p6 + 3;
        let dc = buf[p6 + 2] as int;
        let read = min(min(dc, 3), (len - p8) / 2);
        let p9 = p8 + 2 * read;
        let d = (dim(buf, p8, read, 0), dim(buf, p8, read, 1), dim(buf, p8, read, 2));
        let dims = if d.0 != 0 || d.1 != 0 || d.2 != 0 {
            Some(d)
        } else {
            None
        };
        let p10 = if p9 + 2 <= len && buf[p9] == 0 && buf[p9 + 1] == 0 {
            p9 + 2
        } else {
            p9
        };
        RecordStep::Item(name_start as usize, n as usize, typ, dims, p10 as usize)
    }
}

/// A symbol as the reply describes it: its name bytes, type and dimensions.
pub struct SymbolRecord {
    pub name: Seq<u8>,
    pub typ: CipType,
    pub array_dims: Option<(u16, u16, u16)>,
}

/// The symbols of the records from `pos` on, until the reply ends or a
/// record is cut off; records of unknown type are passed over.
pub open spec fn symbols_from(buf: Seq<u8>, pos: int) -> Seq<SymbolRecord>
    decreases buf.len() - pos,
{
    if pos >= buf.len() || pos < 0 {
        Seq::empty()
    } else {
        match record_at(buf, pos) {
            RecordStep::Stop => Seq::empty(),
            RecordStep::Skip(q) => if q > pos {
                symbols_from(buf, q as int)
            } else {
                Seq::empty()
            },
            RecordStep::Item(s, n, typ, dims, q) => if q > pos {
                seq![SymbolRecord { name: buf.subrange(s as int, s + n), typ, array_dims: dims }]
                    + symbols_from(buf, q as int)
            } else {
                Seq::empty()
            },
        }
    }
}

/// The symbol `info` is the record `r`, its name decoded as text.
pub open spec fn symbol_matches(info: SymbolInfo, r: SymbolRecord) -> bool {
    info.name@ == utf8_text(r.name) && info.typ == r.typ && info.array_dims == r.array_dims
}

fn record_at_exec(buf: &[u8], pos: usize) -> (step: RecordStep)
    requires
        pos < buf@.len(),
    ensures
        step == record_at(buf@, pos as int),
        step matches RecordStep::Skip(q) ==> q > pos,
        step matches RecordStep::Item(s, n, _, _, q) ==> q > pos && s + n <= buf@.len(),
{
    let len = buf.len();
    if len - pos < 3 {
        return RecordStep::Stop;
    }
    let p1 = pos + 2;
    let n = buf[p1] as usize;
    let p2 = p1 + 1;
    if n > len - p2 {
        return RecordStep::Stop;
    }
    let p3 = p2 + n;
    let p4 = if n % 2 == 1 && p3 < len && buf[p3] == 0 {
        p3 + 1
    } else {
        p3
    };
    if len - p4 < 4 {
        return RecordStep::Stop;
    }
    let p5 = p4 + 2;
    let p6 = p5 + 2;
    let typ = match CipType::from_u8(buf[p5]) {
        Some(t) => t,
        None => return RecordStep::Skip(p6),
    };
    record_tail_exec(buf, p6, typ, p2, n)
}

fn record_tail_exec(buf: &[u8], p6: usize, typ: CipType, name_start: usize, n: usize) -> (step: RecordStep)
    requires
        p6 <= buf@.len(),
        name_start + n < p6,
    ensures
        step == record_tail(buf@, p6 as int, typ, name_start as int, n as int),
        step matches RecordStep::Item(s, m, _, _, q) ==> q > p6 && s == name_start && m == n,
{
    let len = buf.len();
    if len - p6 < 3 {
        return RecordStep::Stop;
    }
    let dc = buf[p6 + 2] as usize;
    let p8 = p6 + 3;
    let want = if dc < 3 {
        dc
    } else {
        3
    };
    let avail = (len - p8) / 2;
    let read = if want < avail {
        want
    } else {
        avail
    };
    let d0 = if 0 < read {
        get_u16(buf, p8)
    } else {
        0
    };
    let d1 = if 1 < read {
        get_u16(buf, p8 + 2)
    } else {
        0
    };
    let d2 = if 2 < read {
        get_u16(buf, p8 + 4)
    } else {
        0
    };
    let dims = if d0 != 0 || d1 != 0 || d2 != 0 {
        Some((d0, d1, d2))
    } else {
        None
    };
    let p9 = p8 + 2 * read;
    let p10 = if len - p9 >= 2 && buf[p9] == 0 && buf[p9 + 1] == 0 {
        p9 + 2
    } else {
        p9
    };
    RecordStep::Item(name_start, n, typ, dims, p10)
}

/// Parses the records of a symbol browse reply.
pub fn parse_symbol_browse_response(buf: &[u8]) -> (out: Vec<SymbolInfo>)
    ensures
        out@.len() == symbols_from(buf@, 0).len(),
        forall|i: int|
            0 <= i < out@.len() ==> symbol_matches(#[trigger] out@[i], symbols_from(buf@, 0)[i]),
{
    let mut out: Vec<SymbolInfo> = Vec::new();
    let mut pos: usize = 0;
    while pos < buf.len()
        invariant
            pos <= buf@.len(),
            out@.len() + symbols_from(buf@, pos as int).len() == symbols_from(buf@, 0).len(),
            forall|i: int|
                0 <= i < out@.len() ==> symbol_matches(#[trigger] out@[i], symbols_from(buf@, 0)[i]),
            forall|i: int|
                0 <= i < symbols_from(buf@, pos as int).len() ==> symbols_from(buf@, 0)[out@.len()
                    + i] == #[trigger] symbols_from(buf@, pos as int)[i],
        ensures
            out@.len() == symbols_from(buf@, 0).len(),
            forall|i: int|
                0 <= i < out@.len() ==> symbol_matches(#[trigger] out@[i], symbols_from(buf@, 0)[i]),
        decreases buf@.len() - pos,
    {
        match record_at_exec(buf, pos) {
            RecordStep::Stop => {
                assert(symbols_from(buf@, pos as int).len() == 0);
                break;
            },
            RecordStep::Skip(q) => {
                pos = q;
            },
            RecordStep::Item(s, n, typ, dims, q) => {
                let ghost rest = symbols_from(buf@, q as int);
                let ghost here = symbols_from(buf@, pos as int);
                let ghost old_len = out@.len();
                let name = text_from_utf8_lossy(&buf[s..s + n]);
                out.push(SymbolInfo { name, typ, array_dims: dims });
                proof {
                    assert(here[0].name == buf@.subrange(s as int, s + n));
                    assert(here.len() == rest.len() + 1);
                    assert(symbols_from(buf@, 0)[old_len as int] == here[0]);
                    assert forall|i: int| 0 <= i < rest.len() implies symbols_from(buf@, 0)[out@.len() + i] == #[trigger] rest[i] by {
                        assert(here[i + 1] == rest[i]);
                        assert(symbols_from(buf@, 0)[old_len + (i + 1)] == here[i + 1]);
                    }
                }
                pos = q;
            },
        }
    }
    out
}

/// The `k`-th array dimension of a symbol (0, 1 or 2), 0 for a scalar.
pub open spec fn dims_word(dims: Option<(u16, u16, u16)>, k: int) -> int {
    match dims {
        None => 0,
        Some(d) => if k == 0 {
            d.0 as int
        } else if k == 1 {
            d.1 as int
        } else {
            d.2 as int
        },
    }
}

/// The 16-bit word that holds the `k`-th dimension of the record whose
/// dimension count stands at `p6 + 2`, if the count covers it and the reply
/// holds it whole; 0 otherwise.
pub open spec fn dimension_word(buf: Seq<u8>, p6: int, k: int) -> int {
    if k < buf[p6 + 2] && p6 + 5 + 2 * k <= buf.len() {
        le16(buf, p6 + 3 + 2 * k)
    } else {
        0
    }
}

/// A symbol record's array dimensions are read in reply order: its `k`-th
/// dimension is the `k`-th 16-bit word after the dimension count (0 where
/// the count or the reply ends first), and a record whose dimensions are
/// all 0 is a scalar.
pub proof fn lemma_record_dims(buf: Seq<u8>, p6: int, typ: CipType, name_start: int, n: int)
    requires
        0 <= p6,
        p6 + 3 <= buf.len(),
    ensures
        record_tail(buf, p6, typ, name_start, n) matches RecordStep::Item(_, _, _, dims, _) && {
            &&& dims_word(dims, 0) == dimension_word(buf, p6, 0)
            &&& dims_word(dims, 1) == dimension_word(buf, p6, 1)
            &&& dims_word(dims, 2) == dimension_word(buf, p6, 2)
            &&& dims is None <==> (dimension_word(buf, p6, 0) == 0 && dimension_word(buf, p6, 1) == 0
                && dimension_word(buf, p6, 2) == 0)
        },
{
    let len = buf.len() as int;
    let p8 = p6 + 3;
    let dc = buf[p6 + 2] as int;
    let read = min(min(dc, 3), (len - p8) / 2);
    assert((0 < read) == (0 < dc && p6 + 5 <= len));
    assert((1 < read) == (1 < dc && p6 + 7 <= len));
    assert((2 < read) == (2 < dc && p6 + 9 <= len));
}

} // verus!
