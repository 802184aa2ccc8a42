//! A simulated Logix controller for tests and demonstrations: the reply it
//! gives to each CIP service, and how it handles the encapsulation messages
//! of one TCP session.
use vstd::prelude::*;
use vstd::string::StringSliceAdditionalSpecFns;
use crate::le::{get_u16, get_u32, le16, le32, lemma_le16_at, lemma_u16_bytes_roundtrip, lemma_u32_bytes_roundtrip, push_all, push_u16, push_u32, push_u64, u16_bytes, u32_bytes, u64_bytes};
use crate::cip::payload::{push_string_block, string_block, value_payload};
use crate::cip::read_write::spec_write_request;
use crate::cip::epath::{epath_segments, lemma_epath_word_count, lemma_slot_routing, spec_encode_epath_with_slot};
use crate::client::replies::spec_write_reply_result;
use crate::cip::{element_size, spec_data_list, CipError};
use crate::client::replies::{spec_read_reply_value, spec_reply_payload};
use crate::types::CipValue;
use crate::client::transport::{cpf_data_item, spec_parse_cpf, spec_rr_data_request, spec_unit_data_request, CpfError};
use crate::encapsulation::{
    header_at, lemma_header_roundtrip, header_bytes, spec_new_header, EncapsulationHeader, COMMAND_REGISTER_SESSION, COMMAND_SEND_RR_DATA,
    COMMAND_SEND_UNIT_DATA, COMMAND_UNREGISTER_SESSION,
};
use crate::cip::msp::{
    build_cip_multiple_service_request, msp_fits, multiple_service_request_fits, spec_msp_request, views,
};

verus! {

/// What the simulated controller holds under a tag name.
#[derive(Debug, Clone, Copy, PartialEq, Eq)]
pub enum FakeTag {
    Dint,
    Lint,
    Real,
    Bool,
    Sint,
    Int,
    PackedBool,
    Str,
}

pub open spec fn pow2(n: nat) -> nat
    decreases n,
{
    if n == 0 {
        1
    } else {
        2 * pow2((n - 1) as nat)
    }
}

/// The position of the highest set bit of `m`.
pub open spec fn exponent_of(m: nat) -> nat
    decreases m,
{
    if m < 2 {
        0
    } else {
        1 + exponent_of(m / 2)
    }
}

/// The IEEE-754 single-precision bits of 1.5 + i: with m = 2i + 3 and
/// 2^e <= m < 2^(e+1), a biased exponent of e + 126 and the bits of m below
/// its highest one as the fraction.
pub open spec fn real_bits(i: int) -> int {
    let m = (2 * i + 3) as nat;
    let e = exponent_of(m);
    (e + 126) * pow2(23) + (m - pow2(e)) * pow2((23 - e) as nat)
}

/// Element `i` of an array tag: DINTs 42, 43, ...; LINTs 42000000000, ...;
/// REALs 1.5, 2.5, ...; BOOLs alternating from true; SINTs 10, 11, ...;
/// INTs 1000, 1001, ...
pub open spec fn element_bytes(k: FakeTag, i: int) -> Seq<u8> {
    match k {
        FakeTag::Lint => u64_bytes(42000000000 + i),
        FakeTag::Real => u32_bytes(real_bits(i)),
        FakeTag::Bool => seq![
            if i % 2 == 0 {
                1u8
            } else {
                0u8
            },
        ],
        FakeTag::Sint => seq![((10 + i) % 256) as u8],
        FakeTag::Int => u16_bytes(1000 + i),
        _ => u32_bytes(42 + i),
    }
}

/// The first `n` elements of an array tag, back to back.
pub open spec fn elements(k: FakeTag, n: nat) -> Seq<u8>
    decreases n,
{
    if n == 0 {
        Seq::empty()
    } else {
        elements(k, (n - 1) as nat) + element_bytes(k, n - 1)
    }
}

/// The text held by the STRING tag.
pub open spec fn hello() -> Seq<u8> {
    "Hello".spec_bytes()
}

proof fn lemma_pow2_positive(n: nat)
    ensures
        pow2(n) >= 1,
    decreases n,
{
    if n > 0 {
        lemma_pow2_positive((n - 1) as nat);
    }
}

proof fn lemma_halving_step(m: int, x: int, e: nat, p: int, q: int)
    requires
        m <= 131073,
        2 <= x <= m,
        e <= 23,
        p == pow2(e),
        q == pow2((23 - e) as nat),
        p * q == 8388608,
        x * p <= m,
        m < (x + 1) * p,
    ensures
        e < 23,
        2 * p <= m,
        q % 2 == 0,
        q / 2 == pow2((22 - e) as nat),
        2 * p == pow2(e + 1),
        (x / 2) * (2 * p) <= m,
        m < (x / 2 + 1) * (2 * p),
        (2 * p) * (q / 2) == 8388608,
{
    lemma_pow2_positive(e);
    assert(2 * p <= m) by (nonlinear_arith)
        requires
            x * p <= m,
            x >= 2,
            p >= 1,
    ;
    assert(q >= 2) by (nonlinear_arith)
        requires
            p * q == 8388608,
            2 * p <= m,
            m <= 131073,
            p >= 1,
    ;
    assert(e < 23);
    assert(q == 2 * pow2((22 - e) as nat));
    assert((x / 2) * (2 * p) <= m) by (nonlinear_arith)
        requires
            x * p <= m,
            p >= 1,
            x >= 2,
    ;
    assert(m < (x / 2 + 1) * (2 * p)) by (nonlinear_arith)
        requires
            m < (x + 1) * p,
            p >= 1,
            x >= 2,
    ;
    assert((2 * p) * (q / 2) == 8388608) by (nonlinear_arith)
        requires
            p * q == 8388608,
            q % 2 == 0,
    ;
}

proof fn lemma_pow2_23()
    ensures
        pow2(23) == 8388608,
{
    reveal_with_fuel(pow2, 24);
}

proof fn lemma_fraction_fits(m: int, p: int, q: int)
    requires
        p <= m < 2 * p,
        p * q == 8388608,
        p >= 1,
        q >= 1,
    ensures
        0 <= (m - p) * q < 8388608,
{
    assert((m - p) * q < 8388608) by (nonlinear_arith)
        requires
            m - p < p,
            p * q == 8388608,
            q >= 1,
    ;
    assert(0 <= (m - p) * q) by (nonlinear_arith)
        requires
            m - p >= 0,
            q >= 1,
    ;
}

fn real_bits_of(i: u16) -> (b: u32)
    ensures
        b == real_bits(i as int),
{
    let m: u32 = 2 * (i as u32) + 3;
    let mut x: u32 = m;
    let mut e: u32 = 0;
    let mut p: u32 = 1;
    let mut q: u32 = 8388608;
    proof {
        lemma_pow2_23();
    }
    while x >= 2
        invariant
            m <= 131073,
            1 <= x <= m,
            e <= 23,
            p == pow2(e as nat),
            q == pow2((23 - e) as nat),
            p * q == 8388608,
            exponent_of(m as nat) == e + exponent_of(x as nat),
            x * p <= m,
            m < (x + 1) * p,
        decreases x,
    {
        proof {
            lemma_halving_step(m as int, x as int, e as nat, p as int, q as int);
        }
        x = x / 2;
        e = e + 1;
        p = p * 2;
        q = q / 2;
    }
    proof {
        lemma_pow2_positive((23 - e) as nat);
        lemma_pow2_positive(e as nat);
        assert(p <= m && m < 2 * p);
        lemma_fraction_fits(m as int, p as int, q as int);
        assert(exponent_of(m as nat) == e);
    }
    (e + 126) * 8388608 + (m - p) * q
}

/// Appends element `i` of an array tag of kind `k`.
fn push_element(out: &mut Vec<u8>, k: FakeTag, i: u16)
    requires
        k != FakeTag::Int || i <= 31767,
    ensures
        final(out)@ == old(out)@ + element_bytes(k, i as int),
{
    match k {
        FakeTag::Lint => push_u64(out, 42000000000 + i as u64),
        FakeTag::Real => push_u32(out, real_bits_of(i)),
        FakeTag::Bool => {
            out.push(if i % 2 == 0 { 1 } else { 0 });
            assert(final(out)@ =~= old(out)@ + element_bytes(k, i as int));
        },
        FakeTag::Sint => {
            out.push(((10 + i as u32) % 256) as u8);
            assert(final(out)@ =~= old(out)@ + element_bytes(k, i as int));
        },
        FakeTag::Int => push_u16(out, 1000 + i),
        _ => push_u32(out, 42 + i as u32),
    }
}

/// Appends the first `count` elements of an array tag of kind `k`.
fn push_elements(out: &mut Vec<u8>, k: FakeTag, count: u16)
    requires
        k != FakeTag::Int || count <= 31768,
    ensures
        final(out)@ == old(out)@ + elements(k, count as nat),
{
    let ghost start = out@;
    let mut i: u16 = 0;
    while i < count
        invariant
            i <= count,
            k != FakeTag::Int || count <= 31768,
            out@ == start + elements(k, i as nat),
        decreases count - i,
    {
        push_element(out, k, i);
        i = i + 1;
        assert(out@ =~= start + elements(k, i as nat));
    }
}

/// The first six bytes of a Read Tag reply carrying type `t`.
pub open spec fn read_header(t: u8) -> Seq<u8> {
    seq![0xCCu8, 0u8, 0u8, 0u8, t, 0u8]
}

/// The type code the simulated controller reports for a kind of tag.
pub open spec fn fake_type_code(k: FakeTag) -> u8 {
    match k {
        FakeTag::Dint => 0xC4,
        FakeTag::Lint => 0xC5,
        FakeTag::Real => 0xCA,
        FakeTag::Bool => 0xC1,
        FakeTag::Sint => 0xC2,
        FakeTag::Int => 0xC3,
        FakeTag::PackedBool => 0xD3,
        FakeTag::Str => 0xD0,
    }
}

/// The Read Tag reply for `count` elements of a tag of kind `k`: a packed
/// BOOL tag answers one byte 0x55 and the STRING tag its "Hello" block,
/// whatever the count.
pub open spec fn fake_read(k: FakeTag, count: nat) -> Seq<u8> {
    match k {
        FakeTag::PackedBool => read_header(0xD3) + seq![0x55u8],
        FakeTag::Str => read_header(0xD0) + string_block(hello()),
        _ => read_header(fake_type_code(k)) + elements(k, count),
    }
}

fn read_reply_start(t: u8) -> (out: Vec<u8>)
    ensures
        out@ == read_header(t),
{
    let out = vec![0xCC, 0x00, 0x00, 0x00, t, 0x00];
    assert(out@ =~= read_header(t));
    out
}

pub fn fake_read_dint(count: u16) -> (out: Vec<u8>)
    ensures
        out@ == fake_read(FakeTag::Dint, count as nat),
{
    let mut out = read_reply_start(0xC4);
    push_elements(&mut out, FakeTag::Dint, count);
    out
}

pub fn fake_read_lint(count: u16) -> (out: Vec<u8>)
    ensures
        out@ == fake_read(FakeTag::Lint, count as nat),
{
    let mut out = read_reply_start(0xC5);
    push_elements(&mut out, FakeTag::Lint, count);
    out
}

pub fn fake_read_real(count: u16) -> (out: Vec<u8>)
    ensures
        out@ == fake_read(FakeTag::Real, count as nat),
{
    let mut out = read_reply_start(0xCA);
    push_elements(&mut out, FakeTag::Real, count);
    out
}

pub fn fake_read_bool(count: u16) -> (out: Vec<u8>)
    ensures
        out@ == fake_read(FakeTag::Bool, count as nat),
{
    let mut out = read_reply_start(0xC1);
    push_elements(&mut out, FakeTag::Bool, count);
    out
}

pub fn fake_read_bool_packed(_count: u16) -> (out: Vec<u8>)
    ensures
        out@ == fake_read(FakeTag::PackedBool, _count as nat),
{
    let mut out = read_reply_start(0xD3);
    out.push(0b01010101);
    assert(out@ =~= fake_read(FakeTag::PackedBool, _count as nat));
    out
}

pub fn fake_read_string() -> (out: Vec<u8>)
    ensures
        out@ == fake_read(FakeTag::Str, 0),
{
    let mut out = read_reply_start(0xD0);
    push_string_block(&mut out, "Hello".as_bytes());
    out
}

/// SINT elements are counted up from 10 as 8-bit signed values, so at most
/// 118 of them can be produced.
pub fn fake_read_sint(count: u16) -> (out: Vec<u8>)
    requires
        count <= 118,
    ensures
        out@ == fake_read(FakeTag::Sint, count as nat),
{
    let mut out = read_reply_start(0xC2);
    push_elements(&mut out, FakeTag::Sint, count);
    out
}

/// INT elements are counted up from 1000 as 16-bit signed values, so at
/// most 31768 of them can be produced.
pub fn fake_read_int(count: u16) -> (out: Vec<u8>)
    requires
        count <= 31768,
    ensures
        out@ == fake_read(FakeTag::Int, count as nat),
{
    let mut out = read_reply_start(0xC3);
    push_elements(&mut out, FakeTag::Int, count);
    out
}

/// The tag name that a request addresses: the name in its first symbol
/// segment, or "DINTTag" when the request does not start with one.
pub open spec fn tag_name_of(cip: Seq<u8>) -> Seq<u8> {
    if cip.len() < 4 || cip.len() < 2 + 2 * cip[1] || cip[2] != 0x91 || 2 * cip[1] < 2 + cip[3] {
        "DINTTag".spec_bytes()
    } else {
        cip.subrange(4, 4 + cip[3])
    }
}

fn copy_bytes(b: &[u8]) -> (v: Vec<u8>)
    ensures
        v@ == b@,
{
    let mut v = Vec::new();
    push_all(&mut v, b);
    v
}

pub fn extract_tag_name(cip: &[u8]) -> (name: Vec<u8>)
    ensures
        name@ == tag_name_of(cip@),
{
    if cip.len() < 4 {
        return copy_bytes("DINTTag".as_bytes());
    }
    let path_words = cip[1] as usize;
    let path_bytes = path_words * 2;
    if cip.len() < 2 + path_bytes {
        return copy_bytes("DINTTag".as_bytes());
    }
    let path = &cip[2..2 + path_bytes];
    if path.len() < 2 || path[0] != 0x91 {
        return copy_bytes("DINTTag".as_bytes());
    }
    let len = path[1] as usize;
    if path.len() < 2 + len {
        return copy_bytes("DINTTag".as_bytes());
    }
    let name = copy_bytes(&path[2..2 + len]);
    assert(name@ =~= tag_name_of(cip@));
    name
}

/// Whether two byte strings are equal.
fn same_bytes(a: &[u8], b: &[u8]) -> (r: bool)
    ensures
        r == (a@ == b@),
{
    if a.len() != b.len() {
        return false;
    }
    let mut i: usize = 0;
    while i < a.len()
        invariant
            a@.len() == b@.len(),
            i <= a@.len(),
            a@.subrange(0, i as int) == b@.subrange(0, i as int),
        decreases a@.len() - i,
    {
        if a[i] != b[i] {
            assert(a@[i as int] != b@[i as int]);
            return false;
        }
        i = i + 1;
        assert(a@.subrange(0, i as int) =~= b@.subrange(0, (i - 1) as int).push(b@[i - 1]));
    }
    assert(a@ =~= a@.subrange(0, i as int));
    assert(b@ =~= b@.subrange(0, i as int));
    true
}

/// The kind of tag that a Read Tag request for `name` reads.
pub open spec fn read_kind(name: Seq<u8>) -> FakeTag {
    if name == "LINTTag".spec_bytes() {
        FakeTag::Lint
    } else if name == "REALTag".spec_bytes() {
        FakeTag::Real
    } else if name == "BOOLTag".spec_bytes() {
        FakeTag::Bool
    } else if name == "SINTTag".spec_bytes() {
        FakeTag::Sint
    } else if name == "INTTag".spec_bytes() {
        FakeTag::Int
    } else if name == "PackedBoolTag".spec_bytes() {
        FakeTag::PackedBool
    } else if name == "StringTag".spec_bytes() {
        FakeTag::Str
    } else {
        FakeTag::Dint
    }
}

/// The kind of tag that a Read Tag Fragmented request for `name` reads.
pub open spec fn fragmented_kind(name: Seq<u8>) -> FakeTag {
    if name == "StringTag".spec_bytes() {
        FakeTag::Str
    } else if name == "LINTTag".spec_bytes() {
        FakeTag::Lint
    } else if name == "SINTTag".spec_bytes() {
        FakeTag::Sint
    } else if name == "INTTag".spec_bytes() {
        FakeTag::Int
    } else if name == "PackedBoolTag".spec_bytes() {
        FakeTag::PackedBool
    } else {
        FakeTag::Dint
    }
}

fn read_kind_of(name: &[u8]) -> (k: FakeTag)
    ensures
        k == read_kind(name@),
{
    if same_bytes(name, "LINTTag".as_bytes()) {
        FakeTag::Lint
    } else if same_bytes(name, "REALTag".as_bytes()) {
        FakeTag::Real
    } else if same_bytes(name, "BOOLTag".as_bytes()) {
        FakeTag::Bool
    } else if same_bytes(name, "SINTTag".as_bytes()) {
        FakeTag::Sint
    } else if same_bytes(name, "INTTag".as_bytes()) {
        FakeTag::Int
    } else if same_bytes(name, "PackedBoolTag".as_bytes()) {
        FakeTag::PackedBool
    } else if same_bytes(name, "StringTag".as_bytes()) {
        FakeTag::Str
    } else {
        FakeTag::Dint
    }
}

fn fragmented_kind_of(name: &[u8]) -> (k: FakeTag)
    ensures
        k == fragmented_kind(name@),
{
    if same_bytes(name, "StringTag".as_bytes()) {
        FakeTag::Str
    } else if same_bytes(name, "LINTTag".as_bytes()) {
        FakeTag::Lint
    } else if same_bytes(name, "SINTTag".as_bytes()) {
        FakeTag::Sint
    } else if same_bytes(name, "INTTag".as_bytes()) {
        FakeTag::Int
    } else if same_bytes(name, "PackedBoolTag".as_bytes()) {
        FakeTag::PackedBool
    } else {
        FakeTag::Dint
    }
}

/// The reply of the simulated controller to Read Tag; `None` where it
/// cannot produce one (more SINT or INT elements than it counts up to).
/// A malformed request gets general status 0x01; a count of zero reads
/// one element.
pub open spec fn read_reply(cip: Seq<u8>) -> Option<Seq<u8>> {
    if cip.len() < 3 || cip.len() < 2 + 2 * cip[1] + 2 {
        Some(seq![0xCCu8, 0u8, 1u8, 0u8])
    } else {
        let n = le16(cip, 2 + 2 * cip[1]);
        let count = if n < 1 {
            1
        } else {
            n
        };
        let k = read_kind(tag_name_of(cip));
        if (k == FakeTag::Sint && count > 118) || (k == FakeTag::Int && count > 31768) {
            None
        } else {
            Some(fake_read(k, count as nat))
        }
    }
}

pub fn handle_read(cip: &[u8]) -> (out: Vec<u8>)
    requires
        read_reply(cip@) is Some,
    ensures
        out@ == read_reply(cip@)->0,
{
    if cip.len() < 3 {
        return vec![0xCC, 0x00, 0x01, 0x00];
    }
    let path_words = cip[1] as usize;
    let path_bytes = path_words * 2;
    let elem_off = 2 + path_bytes;
    if cip.len() < elem_off + 2 {
        return vec![0xCC, 0x00, 0x01, 0x00];
    }
    let n = get_u16(cip, elem_off);
    let elem_count = if n < 1 {
        1
    } else {
        n
    };
    let tag = extract_tag_name(cip);
    match read_kind_of(tag.as_slice()) {
        FakeTag::Dint => fake_read_dint(elem_count),
        FakeTag::Lint => fake_read_lint(elem_count),
        FakeTag::Real => fake_read_real(elem_count),
        FakeTag::Bool => fake_read_bool(elem_count),
        FakeTag::Sint => fake_read_sint(elem_count),
        FakeTag::Int => fake_read_int(elem_count),
        FakeTag::PackedBool => fake_read_bool_packed(elem_count),
        FakeTag::Str => fake_read_string(),
    }
}

/// The type code and complete data of a tag read in fragments.
pub open spec fn fragmented_data(k: FakeTag, count: nat) -> (u16, Seq<u8>) {
    match k {
        FakeTag::Str => (0xD0u16, string_block(hello())),
        FakeTag::PackedBool => (0xD3u16, seq![0x55u8]),
        _ => (fake_type_code(k) as u16, elements(k, count)),
    }
}

/// The reply of the simulated controller to Read Tag Fragmented: all the
/// data from the requested byte offset on, in one piece, with the type
/// code when the offset is zero; general status 0x01 for a malformed
/// request or an offset past the data. `None` where it cannot produce one
/// (a request of one byte, or more INT elements than it counts up to).
pub open spec fn fragmented_reply(cip: Seq<u8>) -> Option<Seq<u8>> {
    if cip.len() < 2 {
        None
    } else if cip.len() < 2 + 2 * cip[1] + 6 {
        Some(seq![0xD2u8, 0u8, 1u8, 0u8])
    } else {
        let at = 2 + 2 * cip[1];
        let count = le16(cip, at);
        let offset = le32(cip, at + 2);
        let k = fragmented_kind(tag_name_of(cip));
        if k == FakeTag::Int && count > 31768 {
            None
        } else {
            let data = fragmented_data(k, count as nat);
            let full = data.1;
            if offset >= full.len() && offset != 0 {
                Some(seq![0xD2u8, 0u8, 1u8, 0u8])
            } else {
                Some(seq![0xD2u8, 0u8, 0u8, 0u8] + (if offset == 0 {
                    u16_bytes(data.0 as int)
                } else {
                    Seq::<u8>::empty()
                }) + full.subrange(offset, full.len() as int))
            }
        }
    }
}

pub fn handle_read_fragmented(cip: &[u8]) -> (out: Vec<u8>)
    requires
        fragmented_reply(cip@) is Some,
    ensures
        out@ == fragmented_reply(cip@)->0,
{
    let path_words = cip[1] as usize;
    let path_bytes = path_words * 2;
    let elem_off = 2 + path_bytes;
    if cip.len() < elem_off + 6 {
        return vec![0xD2, 0x00, 0x01, 0x00];
    }
    let count = get_u16(cip, elem_off);
    let offset = get_u32(cip, elem_off + 2) as usize;
    let tag = extract_tag_name(cip);
    let kind = fragmented_kind_of(tag.as_slice());
    let mut full: Vec<u8> = Vec::new();
    let type_id: u16 = match kind {
        FakeTag::Str => {
            push_string_block(&mut full, "Hello".as_bytes());
            0x00D0
        },
        FakeTag::Lint => {
            push_elements(&mut full, FakeTag::Lint, count);
            0x00C5
        },
        FakeTag::Sint => {
            push_elements(&mut full, FakeTag::Sint, count);
            0x00C2
        },
        FakeTag::Int => {
            push_elements(&mut full, FakeTag::Int, count);
            0x00C3
        },
        FakeTag::PackedBool => {
            full.push(0b01010101);
            0x00D3
        },
        _ => {
            push_elements(&mut full, FakeTag::Dint, count);
            0x00C4
        },
    };
    assert(full@ =~= fragmented_data(kind, count as nat).1);
    if offset >= full.len() && offset != 0 {
        return vec![0xD2, 0x00, 0x01, 0x00];
    }
    let status: u8 = 0x00;
    let mut out = vec![0xD2, 0x00, status, 0x00];
    if offset == 0 {
        push_u16(&mut out, type_id);
    }
    push_all(&mut out, &full.as_slice()[offset..full.len()]);
    assert(out@ =~= fragmented_reply(cip@)->0);
    out
}

/// The reply of the simulated controller to Write Tag: success when the
/// request carries a known type code and as much data as its element count
/// asks for, general status 0x01 otherwise.
pub open spec fn write_reply(cip: Seq<u8>) -> Seq<u8> {
    let pos = 2 + 2 * cip[1];
    if cip.len() < 6 || cip.len() < pos + 4 {
        seq![0xCDu8, 0u8, 1u8, 0u8]
    } else {
        let typ = le16(cip, pos);
        let n = le16(cip, pos + 2);
        let p = pos + 4;
        let ok = if typ == 0xC1 || typ == 0xC2 {
            cip.len() >= p + n
        } else if typ == 0xC3 {
            cip.len() >= p + 2 * n
        } else if typ == 0xC4 || typ == 0xCA {
            cip.len() >= p + 4 * n
        } else if typ == 0xC5 {
            cip.len() >= p + 8 * n
        } else if typ == 0xD0 {
            cip.len() >= p + 2
        } else if typ == 0xD3 {
            cip.len() > p
        } else {
            false
        };
        if ok {
            seq![0xCDu8, 0u8, 0u8, 0u8]
        } else {
            seq![0xCDu8, 0u8, 1u8, 0u8]
        }
    }
}

pub fn handle_write(cip: &[u8]) -> (out: Vec<u8>)
    ensures
        out@ == write_reply(cip@),
{
    if cip.len() < 6 {
        return vec![0xCD, 0x00, 0x01, 0x00];
    }
    let path_words = cip[1] as usize;
    let path_bytes = path_words * 2;
    let mut pos = 2 + path_bytes;
    if cip.len() < pos + 4 {
        return vec![0xCD, 0x00, 0x01, 0x00];
    }
    let typ = get_u16(cip, pos);
    pos += 2;
    let elem_count = get_u16(cip, pos) as usize;
    pos += 2;
    let ok = match typ {
        0x00C1 => cip.len() >= pos + elem_count,
        0x00C2 => cip.len() >= pos + elem_count,
        0x00C3 => cip.len() >= pos + elem_count * 2,
        0x00C4 => cip.len() >= pos + elem_count * 4,
        0x00C5 => cip.len() >= pos + elem_count * 8,
        0x00CA => cip.len() >= pos + elem_count * 4,
        0x00D0 => cip.len() >= pos + 2,
        0x00D3 => cip.len() > pos,
        _ => false,
    };
    if !ok {
        return vec![0xCD, 0x00, 0x01, 0x00];
    }
    vec![0xCD, 0x00, 0x00, 0x00]
}

/// The reply to Forward Close: success.
pub open spec fn forward_close_reply() -> Seq<u8> {
    seq![0xCEu8, 0u8, 0u8, 0u8]
}

pub fn handle_forward_close() -> (out: Vec<u8>)
    ensures
        out@ == forward_close_reply(),
{
    let out = vec![0xCE, 0x00, 0x00, 0x00];
    assert(out@ =~= forward_close_reply());
    out
}

/// The reply to Forward Open: success, with O->T connection ID 0x11223344
/// and T->O connection ID 0x55667788.
pub open spec fn forward_open_reply() -> Seq<u8> {
    seq![0xD4u8, 0u8, 0u8, 0u8] + u32_bytes(0x11223344) + u32_bytes(0x55667788)
}

pub fn handle_forward_open() -> (out: Vec<u8>)
    ensures
        out@ == forward_open_reply(),
{
    let mut out = vec![0xD4, 0x00, 0x00, 0x00];
    push_u32(&mut out, 0x11223344);
    push_u32(&mut out, 0x55667788);
    out
}

/// The reply to the symbol browse (Get Instance Attribute List on the
/// Symbol class): one record, the DINT tag "TestTag".
pub open spec fn symbol_browse_reply() -> Seq<u8> {
    let name = "TestTag".spec_bytes();
    seq![0x83u8, 0u8, 0u8, 0u8] + u16_bytes(0) + seq![name.len() as u8] + name + (if (name.len() as u8)
        % 2 != 0 {
        seq![0u8]
    } else {
        Seq::<u8>::empty()
    }) + u16_bytes(0) + u16_bytes(0xC4) + u16_bytes(0) + seq![0u8] + u16_bytes(0) + u16_bytes(0)
        + u16_bytes(0) + u16_bytes(0)
}

pub fn handle_symbol_browse() -> (out: Vec<u8>)
    ensures
        out@ == symbol_browse_reply(),
{
    let name = "TestTag".as_bytes();
    let name_len = name.len() as u8;
    let mut block: Vec<u8> = Vec::new();
    block.push(0x83);
    block.push(0x00);
    block.push(0x00);
    block.push(0x00);
    push_u16(&mut block, 0);
    block.push(name_len);
    push_all(&mut block, name);
    if name_len % 2 != 0 {
        block.push(0);
    }
    push_u16(&mut block, 0);
    push_u16(&mut block, 0xC4);
    push_u16(&mut block, 0);
    block.push(0);
    push_u16(&mut block, 0);
    push_u16(&mut block, 0);
    push_u16(&mut block, 0);
    push_u16(&mut block, 0);
    assert(block@ =~= symbol_browse_reply());
    block
}

/// The reply to a service that the simulated controller does not offer, and
/// to every fifth request in error mode: the reply service with general
/// status 0x01.
pub open spec fn error_reply(service: u8) -> Seq<u8> {
    seq![service | 0x80u8, 0u8, 1u8, 0u8]
}

/// The reply to a malformed Multiple Service Packet: success with no
/// replies.
pub open spec fn msp_malformed_reply() -> Seq<u8> {
    seq![0x8Au8, 0u8, 0u8, 0u8]
}

/// Offset of the `i`-th request inside a Multiple Service Packet.
pub open spec fn msp_request_offset(cip: Seq<u8>, i: int) -> int {
    le16(cip, 4 + 2 * i)
}

/// The request offsets never decrease.
pub open spec fn msp_offsets_sorted(cip: Seq<u8>, count: int) -> bool {
    forall|i: int|
        #![trigger msp_request_offset(cip, i)]
        0 <= i < count - 1 ==> msp_request_offset(cip, i) <= msp_request_offset(cip, i + 1)
}

/// The reply of the simulated controller to `cip` and the value of its
/// error counter afterwards, when it answers within `fuel` levels of nested
/// Multiple Service Packets; `None` where it gives no reply within that
/// depth, or cannot give one at all (an empty request, a request it fails
/// on, an error counter that would pass its maximum).
pub open spec fn plc_reply(cip: Seq<u8>, em: bool, c: u32, fuel: nat) -> Option<(Seq<u8>, u32)>
    decreases fuel, 100int,
{
    if fuel == 0 || cip.len() == 0 || (em && c == u32::MAX) {
        None
    } else {
        let c1: u32 = if em {
            (c + 1) as u32
        } else {
            c
        };
        let service = cip[0];
        if em && c1 % 5 == 0 {
            Some((error_reply(service), c1))
        } else if service == 0x52 {
            match fragmented_reply(cip) {
                Some(r) => Some((r, c1)),
                None => None,
            }
        } else if service == 0x54 {
            Some((forward_open_reply(), c1))
        } else if service == 0x4C {
            match read_reply(cip) {
                Some(r) => Some((r, c1)),
                None => None,
            }
        } else if service == 0x4D {
            Some((write_reply(cip), c1))
        } else if service == 0x4E {
            Some((forward_close_reply(), c1))
        } else if service == 0x03 && cip.len() >= 4 && cip[2] == 0x20 && cip[3] == 0x6B {
            Some((symbol_browse_reply(), c1))
        } else if service == 0x0A {
            msp_reply(cip, em, c1, fuel)
        } else {
            Some((error_reply(service), c1))
        }
    }
}

/// The reply to a Multiple Service Packet: each embedded request answered
/// in turn (those whose offset lies past the packet with general status
/// 0x01), laid out with their offsets as a request packet is, under
/// service 0x8A.
pub open spec fn msp_reply(cip: Seq<u8>, em: bool, c: u32, fuel: nat) -> Option<(Seq<u8>, u32)>
    decreases fuel, 99int,
{
    if cip.len() < 4 {
        Some((msp_malformed_reply(), c))
    } else {
        let count = le16(cip, 2);
        if count == 0 || count > 64 || cip.len() < 4 + 2 * count || !msp_offsets_sorted(cip, count) {
            Some((msp_malformed_reply(), c))
        } else {
            match sub_replies(cip, count, 0, em, c, fuel) {
                None => None,
                Some(rc) => if msp_fits(rc.0) {
                    Some((spec_msp_request(rc.0).update(0, 0x8Au8), rc.1))
                } else {
                    None
                },
            }
        }
    }
}

/// The replies to the embedded requests from the `i`-th on, and the error
/// counter after them.
pub open spec fn sub_replies(cip: Seq<u8>, count: int, i: int, em: bool, c: u32, fuel: nat) -> Option<
    (Seq<Seq<u8>>, u32),
>
    decreases fuel, count - i,
{
    if i >= count || i < 0 {
        Some((Seq::empty(), c))
    } else if fuel == 0 {
        None
    } else {
        let off = msp_request_offset(cip, i);
        let first = if off >= cip.len() {
            Some((seq![0xCCu8, 0u8, 1u8, 0u8], c))
        } else {
            plc_reply(cip.subrange(off, cip.len() as int), em, c, (fuel - 1) as nat)
        };
        match first {
            None => None,
            Some(f) => match sub_replies(cip, count, i + 1, em, f.1, fuel) {
                None => None,
                Some(rest) => Some((seq![f.0] + rest.0, rest.1)),
            },
        }
    }
}

/// The first part of a present pair.
pub open spec fn fst<A, B>(r: Option<(A, B)>) -> A {
    (r->0).0
}

/// The second part of a present pair.
pub open spec fn snd<A, B>(r: Option<(A, B)>) -> B {
    (r->0).1
}

/// A larger nesting limit changes no answer: once the simulated controller
/// answers `cip` with Multiple Service Packets nested `f` levels deep, it
/// gives the same answer, and leaves the same error counter, for any limit
/// `g` of at least `f`.
pub proof fn lemma_depth_limit_enough(cip: Seq<u8>, em: bool, c: u32, f: nat, g: nat)
    requires
        plc_reply(cip, em, c, f) is Some,
        f <= g,
    ensures
        plc_reply(cip, em, c, g) == plc_reply(cip, em, c, f),
    decreases f, 100int,
{
    let c1: u32 = if em {
        (c + 1) as u32
    } else {
        c
    };
    if !(em && c1 % 5 == 0) && cip[0] == 0x0A {
        lemma_msp_depth(cip, em, c1, f, g);
    }
}

proof fn lemma_msp_depth(cip: Seq<u8>, em: bool, c: u32, f: nat, g: nat)
    requires
        msp_reply(cip, em, c, f) is Some,
        f <= g,
    ensures
        msp_reply(cip, em, c, g) == msp_reply(cip, em, c, f),
    decreases f, 99int,
{
    if cip.len() >= 4 {
        let count = le16(cip, 2);
        if !(count == 0 || count > 64 || cip.len() < 4 + 2 * count || !msp_offsets_sorted(cip, count)) {
            lemma_sub_replies_depth(cip, count, 0, em, c, f, g);
        }
    }
}

proof fn lemma_sub_replies_depth(cip: Seq<u8>, count: int, i: int, em: bool, c: u32, f: nat, g: nat)
    requires
        0 < count <= 64,
        sub_replies(cip, count, i, em, c, f) is Some,
        f <= g,
    ensures
        sub_replies(cip, count, i, em, c, g) == sub_replies(cip, count, i, em, c, f),
    decreases f, count - i,
{
    if 0 <= i < count && f > 0 {
        let off = msp_request_offset(cip, i);
        let first = if off >= cip.len() {
            Some((seq![0xCCu8, 0u8, 1u8, 0u8], c))
        } else {
            plc_reply(cip.subrange(off, cip.len() as int), em, c, (f - 1) as nat)
        };
        if off < cip.len() {
            lemma_depth_limit_enough(cip.subrange(off, cip.len() as int), em, c, (f - 1) as nat, (g - 1) as nat);
        }
        let (_, next) = first->0;
        lemma_sub_replies_depth(cip, count, i + 1, em, next, f, g);
    }
}

/// Whether the simulated controller can answer a Read Tag request.
fn read_answerable(cip: &[u8]) -> (b: bool)
    ensures
        b == read_reply(cip@) is Some,
{
    if cip.len() < 3 {
        return true;
    }
    let elem_off = 2 + cip[1] as usize * 2;
    if cip.len() < elem_off + 2 {
        return true;
    }
    let n = get_u16(cip, elem_off);
    let count = if n < 1 {
        1
    } else {
        n
    };
    let tag = extract_tag_name(cip);
    match read_kind_of(tag.as_slice()) {
        FakeTag::Sint => count <= 118,
        FakeTag::Int => count <= 31768,
        _ => true,
    }
}

/// Whether the simulated controller can answer a Read Tag Fragmented
/// request.
fn fragmented_answerable(cip: &[u8]) -> (b: bool)
    ensures
        b == fragmented_reply(cip@) is Some,
{
    if cip.len() < 2 {
        return false;
    }
    let elem_off = 2 + cip[1] as usize * 2;
    if cip.len() < elem_off + 6 {
        return true;
    }
    let count = get_u16(cip, elem_off);
    let tag = extract_tag_name(cip);
    match fragmented_kind_of(tag.as_slice()) {
        FakeTag::Int => count <= 31768,
        _ => true,
    }
}

/// Answers one CIP request, with Multiple Service Packets nested at most
/// `depth` levels deep. In error mode every request counts, and every fifth
/// one (nested requests included) fails with general status 0x01. `None`
/// where the controller gives no answer: a deeper nesting, an empty
/// request, an error counter at its limit, more SINT or INT elements than
/// it counts up to, or a batched reply whose offsets do not fit in 16 bits;
/// the counter is then unchanged.
pub fn handle_cip_request(cip: &[u8], error_mode: bool, error_counter: &mut u32, depth: u64) -> (out: Option<Vec<u8>>)
    ensures
        out is Some <==> plc_reply(cip@, error_mode, *old(error_counter), depth as nat) is Some,
        out matches Some(o) ==> o@ == fst(plc_reply(cip@, error_mode, *old(error_counter), depth as nat)),
        *final(error_counter) == if out is Some {
            snd(plc_reply(cip@, error_mode, *old(error_counter), depth as nat))
        } else {
            *old(error_counter)
        },
{
    let saved = *error_counter;
    let out = respond(cip, error_mode, error_counter, depth);
    if out.is_none() {
        *error_counter = saved;
    }
    out
}

fn respond(cip: &[u8], error_mode: bool, error_counter: &mut u32, fuel: u64) -> (out: Option<Vec<u8>>)
    ensures
        out is Some <==> plc_reply(cip@, error_mode, *old(error_counter), fuel as nat) is Some,
        out matches Some(o) ==> o@ == fst(plc_reply(cip@, error_mode, *old(error_counter), fuel as nat))
            && *final(error_counter) == snd(plc_reply(cip@, error_mode, *old(error_counter), fuel as nat)),
    decreases fuel, 2int,
{
    if fuel == 0 || cip.len() == 0 || (error_mode && *error_counter == u32::MAX) {
        return None;
    }
    let service = cip[0];
    if error_mode {
        *error_counter += 1;
        if *error_counter % 5 == 0 {
            let r = vec![service | 0x80, 0x00, 0x01, 0x00];
            assert(r@ =~= error_reply(service));
            return Some(r);
        }
    }
    match service {
        0x52 => if fragmented_answerable(cip) {
            Some(handle_read_fragmented(cip))
        } else {
            None
        },
        0x54 => Some(handle_forward_open()),
        0x4C => if read_answerable(cip) {
            Some(handle_read(cip))
        } else {
            None
        },
        0x4D => Some(handle_write(cip)),
        0x4E => Some(handle_forward_close()),
        0x03 if cip.len() >= 4 && cip[2] == 0x20 && cip[3] == 0x6B => Some(handle_symbol_browse()),
        0x0A => handle_msp(cip, error_mode, error_counter, fuel),
        _ => {
            let r = vec![service | 0x80, 0x00, 0x01, 0x00];
            assert(r@ =~= error_reply(service));
            Some(r)
        },
    }
}

/// The request offsets of a Multiple Service Packet with `count` requests.
fn request_offsets(cip: &[u8], count: usize) -> (offsets: Vec<usize>)
    requires
        count <= 64,
        cip@.len() >= 4 + 2 * count,
    ensures
        offsets@.len() == count,
        forall|j: int| 0 <= j < count ==> offsets@[j] == msp_request_offset(cip@, j),
{
    let mut offsets: Vec<usize> = Vec::new();
    let mut i: usize = 0;
    while i < count
        invariant
            i <= count <= 64,
            cip@.len() >= 4 + 2 * count,
            offsets@.len() == i,
            forall|j: int| 0 <= j < i ==> offsets@[j] == msp_request_offset(cip@, j),
        decreases count - i,
    {
        let o = 4 + i * 2;
        offsets.push(get_u16(cip, o) as usize);
        i = i + 1;
    }
    offsets
}

/// Whether the offsets never decrease.
fn offsets_sorted(offsets: &Vec<usize>, Ghost(cip): Ghost<Seq<u8>>) -> (r: bool)
    requires
        offsets@.len() <= 64,
        forall|j: int| 0 <= j < offsets@.len() ==> offsets@[j] == msp_request_offset(cip, j),
    ensures
        r == msp_offsets_sorted(cip, offsets@.len() as int),
{
    let count = offsets.len();
    if count == 0 {
        return true;
    }
    let mut k: usize = 1;
    while k < count
        invariant
            1 <= k <= count,
            count == offsets@.len(),
            forall|j: int| 0 <= j < count ==> offsets@[j] == msp_request_offset(cip, j),
            forall|j: int|
                #![trigger msp_request_offset(cip, j)]
                0 <= j < k - 1 ==> msp_request_offset(cip, j) <= msp_request_offset(cip, j + 1),
        decreases count - k,
    {
        if offsets[k] < offsets[k - 1] {
            assert(msp_request_offset(cip, k - 1) > msp_request_offset(cip, (k - 1) + 1));
            return false;
        }
        k = k + 1;
    }
    true
}

/// `r` with `pre` put before its replies.
pub open spec fn after_replies(pre: Seq<Seq<u8>>, r: Option<(Seq<Seq<u8>>, u32)>) -> Option<(Seq<Seq<u8>>, u32)> {
    match r {
        Some(x) => Some((pre + x.0, x.1)),
        None => None,
    }
}

/// Answers the embedded requests of a Multiple Service Packet in turn.
#[verifier::spinoff_prover]
fn answer_each(cip: &[u8], offsets: &Vec<usize>, error_mode: bool, error_counter: &mut u32, fuel: u64) -> (replies: Option<
    Vec<Vec<u8>>,
>)
    requires
        fuel >= 1,
        offsets@.len() <= 64,
        forall|j: int| 0 <= j < offsets@.len() ==> offsets@[j] == msp_request_offset(cip@, j),
    ensures
        replies is Some <==> sub_replies(cip@, offsets@.len() as int, 0, error_mode, *old(error_counter), fuel as nat) is Some,
        replies matches Some(rs) ==> rs@.len() == offsets@.len() && views(rs@) == fst(
            sub_replies(cip@, offsets@.len() as int, 0, error_mode, *old(error_counter), fuel as nat),
        ) && *final(error_counter) == snd(
            sub_replies(cip@, offsets@.len() as int, 0, error_mode, *old(error_counter), fuel as nat),
        ),
    decreases fuel, 0int,
{
    let count = offsets.len();
    let ghost all = sub_replies(cip@, count as int, 0, error_mode, *error_counter, fuel as nat);
    let mut replies: Vec<Vec<u8>> = Vec::new();
    let mut i: usize = 0;
    assert(after_replies(views(replies@), all) =~= all) by {
        if all is Some {
            assert(views(replies@) + fst(all) =~= fst(all));
        }
    }
    while i < count
        invariant
            i <= count <= 64,
            count == offsets@.len(),
            replies@.len() == i,
            fuel >= 1,
            forall|j: int| 0 <= j < count ==> offsets@[j] == msp_request_offset(cip@, j),
            all == sub_replies(cip@, count as int, 0, error_mode, *old(error_counter), fuel as nat),
            all == after_replies(
                views(replies@),
                sub_replies(cip@, count as int, i as int, error_mode, *error_counter, fuel as nat),
            ),
        decreases count - i,
    {
        let off = offsets[i];
        let ghost before = *error_counter;
        let r = if off >= cip.len() {
            let r = vec![0xCC, 0x00, 0x01, 0x00];
            assert(r@ =~= seq![0xCCu8, 0u8, 1u8, 0u8]);
            r
        } else {
            let req = &cip[off..cip.len()];
            match respond(req, error_mode, error_counter, fuel - 1) {
                Some(r) => r,
                None => {
                    assert(sub_replies(cip@, count as int, i as int, error_mode, before, fuel as nat) is None);
                    assert(all is None);
                    return None;
                },
            }
        };
        let ghost rest = sub_replies(cip@, count as int, i + 1, error_mode, *error_counter, fuel as nat);
        assert(sub_replies(cip@, count as int, i as int, error_mode, before, fuel as nat) == after_replies(
            seq![r@],
            rest,
        ));
        let ghost prev = views(replies@);
        let ghost rv = r@;
        replies.push(r);
        i = i + 1;
        assert(views(replies@) =~= prev.push(rv));
        assert(after_replies(prev, after_replies(seq![rv], rest)) =~= after_replies(views(replies@), rest)) by {
            if rest is Some {
                assert(prev + (seq![rv] + fst(rest)) =~= views(replies@) + fst(rest));
            }
        }
    }
    assert(fst(sub_replies(cip@, count as int, count as int, error_mode, *error_counter, fuel as nat)) =~= Seq::<Seq<u8>>::empty());
    assert(views(replies@) =~= fst(all));
    Some(replies)
}

fn malformed_msp_reply() -> (r: Vec<u8>)
    ensures
        r@ == msp_malformed_reply(),
{
    let r = vec![0x8A, 0x00, 0x00, 0x00];
    assert(r@ =~= msp_malformed_reply());
    r
}

fn handle_msp(cip: &[u8], error_mode: bool, error_counter: &mut u32, fuel: u64) -> (out: Option<Vec<u8>>)
    requires
        fuel >= 1,
    ensures
        out is Some <==> msp_reply(cip@, error_mode, *old(error_counter), fuel as nat) is Some,
        out matches Some(o) ==> o@ == fst(msp_reply(cip@, error_mode, *old(error_counter), fuel as nat))
            && *final(error_counter) == snd(msp_reply(cip@, error_mode, *old(error_counter), fuel as nat)),
    decreases fuel, 1int,
{
    if cip.len() < 4 {
        return Some(malformed_msp_reply());
    }
    let count = get_u16(cip, 2) as usize;
    if count == 0 || count > 64 {
        return Some(malformed_msp_reply());
    }
    let offsets_start: usize = 4;
    let offsets_end = offsets_start + count * 2;
    if cip.len() < offsets_end {
        return Some(malformed_msp_reply());
    }
    let offsets = request_offsets(cip, count);
    if !offsets_sorted(&offsets, Ghost(cip@)) {
        return Some(malformed_msp_reply());
    }
    let replies = match answer_each(cip, &offsets, error_mode, error_counter, fuel) {
        Some(r) => r,
        None => return None,
    };
    if !multiple_service_request_fits(replies.as_slice()) {
        return None;
    }
    let mut out = build_cip_multiple_service_request(replies.as_slice());
    out.set(0, 0x8A);
    Some(out)
}

/// The state of one TCP session with the simulated controller.
#[derive(Debug, Clone, Copy, PartialEq, Eq)]
pub struct FakePlcSession {
    pub session_id: u32,
    /// Fail every fifth CIP request with general status 0x01.
    pub error_mode: bool,
    pub error_counter: u32,
}

/// What the simulated controller does after one encapsulation message.
#[derive(Debug, Clone, PartialEq, Eq)]
pub enum FakePlcAction {
    /// Send these bytes back.
    Reply(Vec<u8>),
    /// Send nothing and wait for the next message.
    Ignore,
    /// End the session.
    Close,
}

/// The session ID that the simulated controller hands out.
pub const FAKE_SESSION_ID: u32 = 0x1234_5678;

/// The CIP request in the data item of a SendRRData payload, if there is a
/// non-empty one.
pub open spec fn rr_request(p: Seq<u8>) -> Option<Seq<u8>> {
    if p.len() < 16 || p.len() < 16 + le16(p, 14) || le16(p, 14) == 0 {
        None
    } else {
        Some(p.subrange(16, 16 + le16(p, 14)))
    }
}

/// The CIP request after the connection ID and sequence number of a
/// SendUnitData payload, if it is not empty.
pub open spec fn unit_request(p: Seq<u8>) -> Option<Seq<u8>> {
    if p.len() <= 6 {
        None
    } else {
        Some(p.subrange(6, p.len() as int))
    }
}

/// The CPF body that carries a CIP reply: interface handle and timeout (all
/// zero), two items, a null address item and the data item.
pub open spec fn cpf_reply(r: Seq<u8>) -> Seq<u8> {
    seq![0u8, 0u8, 0u8, 0u8, 0u8, 0u8] + u16_bytes(2) + seq![0u8, 0u8, 0u8, 0u8] + u16_bytes(0xB2)
        + u16_bytes(r.len() as int) + r
}

/// A reply message: the header for `command` in session `session`, then the
/// CPF body carrying `r`.
pub open spec fn framed_reply(command: u16, session: u32, r: Seq<u8>) -> Seq<u8> {
    header_bytes(spec_new_header(command, (cpf_reply(r).len() % 65536) as u16, session)) + cpf_reply(r)
}

/// The CIP request that a message carries.
pub open spec fn carried_request(command: u16, p: Seq<u8>) -> Option<Seq<u8>> {
    if command == COMMAND_SEND_RR_DATA {
        rr_request(p)
    } else if command == COMMAND_SEND_UNIT_DATA {
        unit_request(p)
    } else {
        None
    }
}

/// The simulated controller can answer the message with Multiple Service
/// Packets nested at most `depth` levels deep.
pub open spec fn session_can_answer(s: FakePlcSession, command: u16, p: Seq<u8>, depth: nat) -> bool {
    carried_request(command, p) matches Some(cip) ==> plc_reply(cip, s.error_mode, s.error_counter, depth) is Some
}

/// The session after one message: RegisterSession sets the session ID; a
/// carried CIP request advances the error counter.
pub open spec fn session_after(s: FakePlcSession, command: u16, p: Seq<u8>, depth: nat) -> FakePlcSession {
    if command == COMMAND_REGISTER_SESSION {
        FakePlcSession { session_id: FAKE_SESSION_ID, ..s }
    } else {
        match carried_request(command, p) {
            Some(cip) => FakePlcSession { error_counter: snd(plc_reply(cip, s.error_mode, s.error_counter, depth)), ..s },
            None => s,
        }
    }
}

/// The bytes sent back for one message, if any: the RegisterSession reply
/// (protocol version 1, no options), or the answer to a carried CIP request
/// framed under the command it came with.
pub open spec fn session_reply(s: FakePlcSession, command: u16, p: Seq<u8>, depth: nat) -> Option<Seq<u8>> {
    if command == COMMAND_REGISTER_SESSION {
        Some(header_bytes(spec_new_header(COMMAND_REGISTER_SESSION, 4, FAKE_SESSION_ID)) + u16_bytes(1)
            + u16_bytes(0))
    } else {
        match carried_request(command, p) {
            Some(cip) => Some(
                framed_reply(command, s.session_id, fst(plc_reply(cip, s.error_mode, s.error_counter, depth))),
            ),
            None => None,
        }
    }
}

fn frame_reply(command: u16, session: u32, cip_reply: &[u8]) -> (out: Vec<u8>)
    ensures
        out@ == framed_reply(command, session, cip_reply@),
{
    let mut cpf: Vec<u8> = Vec::new();
    push_all(&mut cpf, &[0, 0, 0, 0, 0, 0]);
    push_u16(&mut cpf, 2);
    push_all(&mut cpf, &[0, 0, 0, 0]);
    push_u16(&mut cpf, 0x00B2);
    push_u16(&mut cpf, (cip_reply.len() % 65536) as u16);
    push_all(&mut cpf, cip_reply);
    assert(cpf@ =~= cpf_reply(cip_reply@));
    let hdr = EncapsulationHeader::new(command, (cpf.len() % 65536) as u16, session).to_bytes();
    let mut out: Vec<u8> = Vec::new();
    push_all(&mut out, &hdr);
    push_all(&mut out, cpf.as_slice());
    out
}

impl FakePlcSession {
    /// A session before RegisterSession.
    pub fn new(error_mode: bool) -> (s: Self)
        ensures
            s == (FakePlcSession { session_id: 0, error_mode, error_counter: 0 }),
    {
        FakePlcSession { session_id: 0, error_mode, error_counter: 0 }
    }

    /// Handles one encapsulation message whose data is `payload`, answering
    /// Multiple Service Packets nested at most `depth` levels deep. `None`,
    /// with the session unchanged, when the carried CIP request gets no
    /// answer (see `handle_cip_request`).
    pub fn handle_message(&mut self, hdr: &EncapsulationHeader, payload: &[u8], depth: u64) -> (action: Option<
        FakePlcAction,
    >)
        ensures
            action is Some <==> session_can_answer(*old(self), hdr.command, payload@, depth as nat),
            action is None ==> *final(self) == *old(self),
            action matches Some(a) ==> {
                &&& *final(self) == session_after(*old(self), hdr.command, payload@, depth as nat)
                &&& a is Close <==> hdr.command == COMMAND_UNREGISTER_SESSION
                &&& a is Reply <==> session_reply(*old(self), hdr.command, payload@, depth as nat) is Some
                &&& a matches FakePlcAction::Reply(v) ==> v@ == session_reply(
                    *old(self),
                    hdr.command,
                    payload@,
                    depth as nat,
                )->0
            },
    {
        let payload_len = payload.len();
        match hdr.command {
            COMMAND_REGISTER_SESSION => {
                self.session_id = FAKE_SESSION_ID;
                let h = EncapsulationHeader::new(COMMAND_REGISTER_SESSION, 4, self.session_id).to_bytes();
                let mut res: Vec<u8> = Vec::new();
                push_all(&mut res, &h);
                push_u16(&mut res, 1);
                push_u16(&mut res, 0);
                Some(FakePlcAction::Reply(res))
            },
            COMMAND_SEND_RR_DATA => {
                if payload_len < 16 {
                    return Some(FakePlcAction::Ignore);
                }
                let item2_len = get_u16(payload, 14) as usize;
                if payload_len < 16 + item2_len {
                    return Some(FakePlcAction::Ignore);
                }
                let cip = &payload[16..16 + item2_len];
                if cip.len() == 0 {
                    return Some(FakePlcAction::Ignore);
                }
                match handle_cip_request(cip, self.error_mode, &mut self.error_counter, depth) {
                    Some(cip_reply) => Some(
                        FakePlcAction::Reply(frame_reply(COMMAND_SEND_RR_DATA, self.session_id, cip_reply.as_slice())),
                    ),
                    None => None,
                }
            },
            COMMAND_SEND_UNIT_DATA => {
                if payload_len < 6 {
                    return Some(FakePlcAction::Ignore);
                }
                let cip = &payload[6..payload_len];
                if cip.len() == 0 {
                    return Some(FakePlcAction::Ignore);
                }
                match handle_cip_request(cip, self.error_mode, &mut self.error_counter, depth) {
                    Some(cip_reply) => Some(
                        FakePlcAction::Reply(frame_reply(COMMAND_SEND_UNIT_DATA, self.session_id, cip_reply.as_slice())),
                    ),
                    None => None,
                }
            },
            COMMAND_UNREGISTER_SESSION => Some(FakePlcAction::Close),
            _ => Some(FakePlcAction::Ignore),
        }
    }
}

/// The simulated controller reads back the CIP request of every SendRRData
/// packet that the client builds, and the client reads back the CIP reply
/// of every SendRRData reply that the controller frames.
#[verifier::spinoff_prover]
pub proof fn lemma_rr_exchange(session: u32, cip: Seq<u8>, reply: Seq<u8>)
    requires
        0 < cip.len(),
        cip.len() + 16 < 65536,
        reply.len() + 16 < 65536,
    ensures
        ({
            let pkt = spec_rr_data_request(session, cip);
            &&& header_at(pkt).command == COMMAND_SEND_RR_DATA
            &&& header_at(pkt).length == pkt.len() - 24
            &&& carried_request(COMMAND_SEND_RR_DATA, pkt.subrange(24, pkt.len() as int)) == Some(cip)
        }),
        ({
            let rep = framed_reply(COMMAND_SEND_RR_DATA, session, reply);
            &&& header_at(rep).command == COMMAND_SEND_RR_DATA
            &&& header_at(rep).length == rep.len() - 24
            &&& spec_parse_cpf(rep.subrange(24, rep.len() as int)) == Ok::<Seq<u8>, CpfError>(reply)
        }),
{
    let rr = u32_bytes(0) + u16_bytes(0) + u16_bytes(2) + u16_bytes(0) + u16_bytes(0) + u16_bytes(0xB2)
        + u16_bytes(cip.len() as int % 65536) + cip;
    let h = spec_new_header(COMMAND_SEND_RR_DATA, (rr.len() % 65536) as u16, session);
    let pkt = spec_rr_data_request(session, cip);
    lemma_header_prefix(h, rr);
    assert(rr.len() == 16 + cip.len());
    assert(pkt == header_bytes(h) + rr);
    assert(pkt.len() == 24 + rr.len());
    assert(pkt.subrange(24, pkt.len() as int) == rr);
    assert(rr.subrange(14, 16) =~= u16_bytes(cip.len() as int));
    lemma_le16_at(rr, 14, cip.len() as int);
    assert(rr.subrange(16, 16 + cip.len() as int) =~= cip);
    assert(rr_request(rr) == Some(cip));
    lemma_cpf_reply(COMMAND_SEND_RR_DATA, session, reply);
}

/// The header at the front of `header_bytes(h) + body` reads back as `h`.
proof fn lemma_header_prefix(h: EncapsulationHeader, body: Seq<u8>)
    ensures
        header_bytes(h).len() == 24,
        header_at(header_bytes(h) + body) == h,
        (header_bytes(h) + body).subrange(24, 24 + body.len() as int) == body,
{
    lemma_header_roundtrip(h);
    let b = header_bytes(h) + body;
    assert(b.subrange(0, 24) =~= header_bytes(h));
    assert(b.subrange(24, 24 + body.len() as int) =~= body);
    let g = header_at(b);
    let g0 = header_at(header_bytes(h));
    assert(le16(b, 0) == le16(header_bytes(h), 0));
    assert(le16(b, 2) == le16(header_bytes(h), 2));
    assert(le32(b, 4) == le32(header_bytes(h), 4));
    assert(le32(b, 8) == le32(header_bytes(h), 8));
    assert(le32(b, 20) == le32(header_bytes(h), 20));
    assert(g.sender_context =~= g0.sender_context);
}

/// The client finds the CIP reply in the CPF body that carries it.
proof fn lemma_cpf_body(reply: Seq<u8>)
    requires
        reply.len() + 16 < 65536,
    ensures
        spec_parse_cpf(cpf_reply(reply)) == Ok::<Seq<u8>, CpfError>(reply),
{
    let cpf = cpf_reply(reply);
    assert(cpf.subrange(6, 8) =~= u16_bytes(2));
    assert(cpf.subrange(8, 10) =~= u16_bytes(0));
    assert(cpf.subrange(10, 12) =~= u16_bytes(0));
    assert(cpf.subrange(12, 14) =~= u16_bytes(0xB2));
    assert(cpf.subrange(14, 16) =~= u16_bytes(reply.len() as int));
    lemma_le16_at(cpf, 6, 2);
    lemma_le16_at(cpf, 8, 0);
    lemma_le16_at(cpf, 10, 0);
    lemma_le16_at(cpf, 12, 0xB2);
    lemma_le16_at(cpf, 14, reply.len() as int);
    assert(cpf_data_item(cpf, 12, 1) == Ok::<(int, int), CpfError>((16, reply.len() as int)));
    assert(cpf_data_item(cpf, 8, 2) == cpf_data_item(cpf, 12, 1));
    assert(cpf.subrange(16, 16 + reply.len() as int) =~= reply);
}

/// The client reads back the CIP reply of every reply message that the
/// simulated controller frames.
#[verifier::spinoff_prover]
pub proof fn lemma_cpf_reply(command: u16, session: u32, reply: Seq<u8>)
    requires
        reply.len() + 16 < 65536,
    ensures
        ({
            let rep = framed_reply(command, session, reply);
            &&& header_at(rep).command == command
            &&& header_at(rep).length == rep.len() - 24
            &&& spec_parse_cpf(rep.subrange(24, rep.len() as int)) == Ok::<Seq<u8>, CpfError>(reply)
        }),
{
    let cpf = cpf_reply(reply);
    let h = spec_new_header(command, (cpf.len() % 65536) as u16, session);
    lemma_header_prefix(h, cpf);
    lemma_cpf_body(reply);
    assert(header_at(header_bytes(h)) == h) by {
        lemma_header_roundtrip(h);
    }
}

/// The simulated controller reads back the CIP request of every
/// SendUnitData packet that the client builds.
#[verifier::spinoff_prover]
pub proof fn lemma_unit_data_exchange(session: u32, conn: u32, seq: u16, cip: Seq<u8>)
    requires
        0 < cip.len(),
        cip.len() + 6 < 65536,
    ensures
        ({
            let pkt = spec_unit_data_request(session, conn, seq, cip);
            &&& header_at(pkt).command == COMMAND_SEND_UNIT_DATA
            &&& header_at(pkt).length == pkt.len() - 24
            &&& carried_request(COMMAND_SEND_UNIT_DATA, pkt.subrange(24, pkt.len() as int)) == Some(cip)
        }),
{
    let rr = u32_bytes(conn as int) + u16_bytes(seq as int) + cip;
    let h = spec_new_header(COMMAND_SEND_UNIT_DATA, (rr.len() % 65536) as u16, session);
    let pkt = spec_unit_data_request(session, conn, seq, cip);
    lemma_header_prefix(h, rr);
    assert(rr.len() == 6 + cip.len());
    assert(pkt == header_bytes(h) + rr);
    assert(pkt.len() == 24 + rr.len());
    assert(pkt.subrange(24, pkt.len() as int) == rr);
    assert(rr.subrange(6, rr.len() as int) =~= cip);
    assert(unit_request(rr) == Some(cip));
}

/// Bytes per element of an array tag of kind `k`.
pub open spec fn element_size_of(k: FakeTag) -> int {
    match k {
        FakeTag::Lint => 8,
        FakeTag::Bool => 1,
        FakeTag::Sint => 1,
        FakeTag::Int => 2,
        _ => 4,
    }
}

proof fn lemma_element_len(k: FakeTag, i: int)
    ensures
        element_bytes(k, i).len() == element_size_of(k),
{
    match k {
        FakeTag::Lint => {
            assert(u64_bytes(42000000000 + i).len() == 8);
        },
        FakeTag::Real => {
            assert(u32_bytes(real_bits(i)).len() == 4);
        },
        FakeTag::Int => {
            assert(u16_bytes(1000 + i).len() == 2);
        },
        FakeTag::Bool => {},
        FakeTag::Sint => {},
        _ => {
            assert(u32_bytes(42 + i).len() == 4);
        },
    }
}

proof fn lemma_elements_layout(k: FakeTag, n: nat)
    ensures
        elements(k, n).len() == n * element_size_of(k),
        n >= 1 ==> elements(k, n).subrange(0, element_size_of(k)) == element_bytes(k, 0),
    decreases n,
{
    if n > 0 {
        lemma_elements_layout(k, (n - 1) as nat);
        lemma_element_len(k, n - 1);
        let prev = elements(k, (n - 1) as nat);
        let size = element_size_of(k);
        assert(elements(k, n) == prev + element_bytes(k, n - 1));
        assert((n - 1) * size + size == n * size) by (nonlinear_arith);
        if n == 1 {
            assert(prev.len() == 0);
            assert(elements(k, n).subrange(0, size) =~= element_bytes(k, 0));
        } else {
            assert(prev.len() >= size) by (nonlinear_arith)
                requires
                    prev.len() == (n - 1) * size,
                    n >= 2,
                    size >= 1,
            ;
            assert(elements(k, n).subrange(0, size) =~= prev.subrange(0, size));
        }
    }
}

/// The bits of the REAL 1.5.
proof fn lemma_real_bits_zero()
    ensures
        real_bits(0) == 0x3FC0_0000,
{
    lemma_pow2_23();
    assert(pow2(22) == 4194304) by {
        reveal_with_fuel(pow2, 23);
    }
    assert(pow2(1) == 2) by {
        reveal_with_fuel(pow2, 2);
    }
    assert(exponent_of(3) == 1) by {
        reveal_with_fuel(exponent_of, 3);
    }
    assert(real_bits(0) == (1 + 126) * pow2(23) + (3 - pow2(1)) * pow2(22));
}

/// The value that the client reads from an array tag of kind `k` of the
/// simulated controller: its first element, where the client decodes the
/// type.
pub open spec fn first_element_value(k: FakeTag) -> Option<CipValue> {
    match k {
        FakeTag::Dint => Some(CipValue::DInt(42)),
        FakeTag::Sint => Some(CipValue::SInt(10)),
        FakeTag::Int => Some(CipValue::Int(1000)),
        FakeTag::Bool => Some(CipValue::Bool(true)),
        FakeTag::Real => Some(CipValue::Real(0x3FC0_0000)),
        _ => None,
    }
}

/// A Read Tag reply of the simulated controller for a DINT, SINT, INT, BOOL
/// or REAL tag gives the client the first element: 42, 10, 1000, true or
/// 1.5.
pub proof fn lemma_client_reads_fake_tag(k: FakeTag, n: nat)
    requires
        n >= 1,
        first_element_value(k) is Some,
    ensures
        spec_read_reply_value(fake_read(k, n)) == Ok::<CipValue, CipError>(first_element_value(k)->0),
{
    let r = fake_read(k, n);
    let t = fake_type_code(k);
    let d = elements(k, n);
    lemma_elements_layout(k, n);
    assert(r == read_header(t) + d);
    let p = r.subrange(4, r.len() as int);
    assert(spec_reply_payload(r) == Ok::<Seq<u8>, CipError>(p));
    assert(p =~= seq![t, 0u8] + d);
    assert(le16(p, 0) == t);
    assert(p.subrange(2, p.len() as int) =~= d);
    let size = element_size_of(k);
    assert(element_size(t as u16) == size);
    assert(d.len() as int / size >= 1) by (nonlinear_arith)
        requires
            d.len() == n * size,
            n >= 1,
            size >= 1,
    ;
    let e0 = d.subrange(0, size);
    assert(e0 == element_bytes(k, 0));
    assert(d[0] == e0[0]);
    if k == FakeTag::Dint {
        lemma_u32_bytes_roundtrip(42);
        assert(le32(d, 0) == le32(e0, 0));
    } else if k == FakeTag::Int {
        lemma_u16_bytes_roundtrip(1000);
        assert(le16(d, 0) == le16(e0, 0));
    } else if k == FakeTag::Real {
        lemma_real_bits_zero();
        lemma_u32_bytes_roundtrip(0x3FC0_0000);
        assert(le32(d, 0) == le32(e0, 0));
    }
    assert(spec_data_list(t as u16, d)[0] == first_element_value(k)->0);
}

/// The simulated controller accepts every Write Tag request that the client
/// builds for a value with data (not the unit, not an empty packed BOOL
/// array) when the path of the tag is shorter than 508 bytes, and the
/// client reads its reply as success.
pub proof fn lemma_fake_plc_accepts_writes(t: Seq<u8>, v: CipValue, slot: Option<u8>)
    requires
        epath_segments(t).len() < 508,
        !(v is Unit),
        v matches CipValue::BoolPacked(b) ==> b@.len() > 0,
    ensures
        write_reply(spec_write_request(t, v, slot)) == seq![0xCDu8, 0u8, 0u8, 0u8],
        spec_write_reply_result(write_reply(spec_write_request(t, v, slot))) == Ok::<(), CipError>(()),
{
    let e = spec_encode_epath_with_slot(t, slot);
    let w = value_payload(v);
    let cip = spec_write_request(t, v, slot);
    lemma_epath_word_count(t);
    match slot {
        Some(sl) => {
            lemma_slot_routing(t, sl);
        },
        None => {},
    }
    assert(e.len() == 1 + epath_segments(t).len() + (if slot is Some {
        4int
    } else {
        0int
    }));
    assert(cip[1] == e[0]);
    let pos = 2 + 2 * cip[1];
    assert(pos == 1 + e.len());
    assert(cip.subrange(pos, cip.len() as int) =~= w);
    let code: int = match v {
        CipValue::Bool(_) => 0xC1,
        CipValue::SInt(_) => 0xC2,
        CipValue::Int(_) => 0xC3,
        CipValue::DInt(_) => 0xC4,
        CipValue::LInt(_) => 0xC5,
        CipValue::Real(_) => 0xCA,
        CipValue::String(_) => 0xD0,
        _ => 0xD3,
    };
    let count: int = match v {
        CipValue::BoolPacked(b) => (b@.len() as u16) as int,
        _ => 1,
    };
    assert(w.subrange(0, 2) == u16_bytes(code));
    assert(w.subrange(2, 4) == u16_bytes(count));
    assert(cip.subrange(pos, pos + 2) =~= w.subrange(0, 2));
    assert(cip.subrange(pos + 2, pos + 4) =~= w.subrange(2, 4));
    lemma_le16_at(cip, pos, code);
    lemma_le16_at(cip, pos + 2, count);
    match v {
        CipValue::String(x) => {
            assert(string_block(vstd::utf8::encode_utf8(x@)).len() == 84);
        },
        _ => {},
    }
    assert(cip.len() == pos + w.len());
}

/// An unconnected exchange with the simulated controller: the session
/// answers the SendRRData packet that the client builds for `cip` with the
/// controller's answer to `cip`, framed in its session, and the client
/// reads that answer back out of the reply.
pub proof fn lemma_unconnected_exchange(s: FakePlcSession, session: u32, cip: Seq<u8>, depth: nat)
    requires
        0 < cip.len(),
        cip.len() + 16 < 65536,
        plc_reply(cip, s.error_mode, s.error_counter, depth) is Some,
        fst(plc_reply(cip, s.error_mode, s.error_counter, depth)).len() + 16 < 65536,
    ensures
        ({
            let pkt = spec_rr_data_request(session, cip);
            let h = header_at(pkt);
            let body = pkt.subrange(24, pkt.len() as int);
            let answer = fst(plc_reply(cip, s.error_mode, s.error_counter, depth));
            &&& session_can_answer(s, h.command, body, depth)
            &&& session_reply(s, h.command, body, depth) == Some(
                framed_reply(COMMAND_SEND_RR_DATA, s.session_id, answer),
            )
            &&& session_after(s, h.command, body, depth).error_counter == snd(
                plc_reply(cip, s.error_mode, s.error_counter, depth),
            )
            &&& spec_parse_cpf(framed_reply(COMMAND_SEND_RR_DATA, s.session_id, answer).subrange(
                24,
                framed_reply(COMMAND_SEND_RR_DATA, s.session_id, answer).len() as int,
            )) == Ok::<Seq<u8>, CpfError>(answer)
        }),
{
    let answer = fst(plc_reply(cip, s.error_mode, s.error_counter, depth));
    lemma_rr_exchange(session, cip, answer);
    lemma_cpf_reply(COMMAND_SEND_RR_DATA, s.session_id, answer);
}

} // verus!
