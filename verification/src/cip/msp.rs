//! Multiple Service Packet (service 0x0A): batching requests, splitting the
//! batched reply; and the reply of a Write Tag.
use vstd::prelude::*;
use crate::cip::{decode_cip_response, spec_decode_cip_response};
use crate::le::{get_u16, le16, push_all, push_u16, u16_bytes};
use crate::types::{same_value, CipValue, MultiResult};

verus! {

/// The views of the requests.
pub open spec fn views(rs: Seq<Vec<u8>>) -> Seq<Seq<u8>> {
    rs.map_values(|r: Vec<u8>| r@)
}

/// Sum of the first `k` request lengths, each taken modulo 2^16 as the
/// offset table holds it.
pub open spec fn lens_sum(rs: Seq<Seq<u8>>, k: int) -> int
    decreases k,
{
    if k <= 0 {
        0
    } else {
        lens_sum(rs, k - 1) + rs[k - 1].len() % 65536
    }
}

/// Offset of the `i`-th request from the start of the packet.
pub open spec fn msp_offset(rs: Seq<Seq<u8>>, i: int) -> int {
    (4 + 2 * rs.len()) % 65536 + lens_sum(rs, i)
}

/// The offset table: one 16-bit offset per request.
pub open spec fn offset_table(rs: Seq<Seq<u8>>, k: int) -> Seq<u8>
    decreases k,
{
    if k <= 0 {
        Seq::empty()
    } else {
        offset_table(rs, k - 1) + u16_bytes(msp_offset(rs, k - 1))
    }
}

/// The first `k` requests, one after the other.
pub open spec fn concat(rs: Seq<Seq<u8>>, k: int) -> Seq<u8>
    decreases k,
{
    if k <= 0 {
        Seq::empty()
    } else {
        concat(rs, k - 1) + rs[k - 1]
    }
}

/// Service 0x0A with an empty path, the number of requests, their offsets,
/// then the requests themselves.
pub open spec fn spec_msp_request(rs: Seq<Seq<u8>>) -> Seq<u8> {
    seq![0x0Au8, 0x00u8] + u16_bytes(rs.len() as int % 65536) + offset_table(rs, rs.len() as int) + concat(
        rs,
        rs.len() as int,
    )
}

/// The offsets of all requests fit in 16 bits.
pub open spec fn msp_fits(rs: Seq<Seq<u8>>) -> bool {
    msp_offset(rs, rs.len() as int) <= 0xFFFF
}

proof fn lemma_lens_sum_monotone(rs: Seq<Seq<u8>>, i: int, j: int)
    requires
        0 <= i <= j,
    ensures
        lens_sum(rs, i) <= lens_sum(rs, j),
    decreases j - i,
{
    if i < j {
        lemma_lens_sum_monotone(rs, i, j - 1);
    }
}

/// Builds a Multiple Service Packet from full CIP requests (service, path
/// and data each).
pub fn build_cip_multiple_service_request(requests: &[Vec<u8>]) -> (out: Vec<u8>)
    requires
        msp_fits(views(requests@)),
        4 + 2 * requests@.len() <= usize::MAX,
    ensures
        out@ == spec_msp_request(views(requests@)),
{
    let ghost rs = views(requests@);
    let count = requests.len();
    let header_len = 2 + 2 + count * 2;
    let mut out = Vec::new();
    out.push(0x0A);
    out.push(0x00);
    push_u16(&mut out, (count % 65536) as u16);
    let mut current_offset: u16 = (header_len % 65536) as u16;
    let mut i: usize = 0;
    while i < count
        invariant
            count == requests@.len(),
            rs == views(requests@),
            msp_fits(rs),
            header_len == 4 + 2 * count,
            i <= count,
            current_offset == msp_offset(rs, i as int),
            out@ == seq![0x0Au8, 0x00u8] + u16_bytes(count as int % 65536) + offset_table(rs, i as int),
        decreases count - i,
    {
        push_u16(&mut out, current_offset);
        proof {
            lemma_lens_sum_monotone(rs, i + 1, count as int);
            assert(rs[i as int] == requests@[i as int]@);
        }
        current_offset = current_offset + (requests[i].len() % 65536) as u16;
        i = i + 1;
        assert(out@ =~= seq![0x0Au8, 0x00u8] + u16_bytes(count as int % 65536) + offset_table(rs, i as int));
    }
    let ghost mid = out@;
    let mut j: usize = 0;
    while j < count
        invariant
            count == requests@.len(),
            rs == views(requests@),
            j <= count,
            out@ == mid + concat(rs, j as int),
        decreases count - j,
    {
        push_all(&mut out, requests[j].as_slice());
        proof {
            assert(rs[j as int] == requests@[j as int]@);
        }
        j = j + 1;
        assert(out@ =~= mid + concat(rs, j as int));
    }
    assert(out@ =~= spec_msp_request(rs));
    out
}

proof fn lemma_offset_table(rs: Seq<Seq<u8>>, k: int, i: int)
    requires
        0 <= i < k,
    ensures
        offset_table(rs, k).len() == 2 * k,
        offset_table(rs, k).subrange(2 * i, 2 * i + 2) == u16_bytes(msp_offset(rs, i)),
    decreases k,
{
    lemma_offset_table_len(rs, k - 1);
    if i < k - 1 {
        lemma_offset_table(rs, k - 1, i);
        assert(offset_table(rs, k).subrange(2 * i, 2 * i + 2) =~= offset_table(rs, k - 1).subrange(
            2 * i,
            2 * i + 2,
        ));
    } else {
        assert(offset_table(rs, k).subrange(2 * i, 2 * i + 2) =~= u16_bytes(msp_offset(rs, i)));
    }
}

proof fn lemma_offset_table_len(rs: Seq<Seq<u8>>, k: int)
    requires
        0 <= k,
    ensures
        offset_table(rs, k).len() == 2 * k,
    decreases k,
{
    if k > 0 {
        lemma_offset_table_len(rs, k - 1);
    }
}

proof fn lemma_concat_at(rs: Seq<Seq<u8>>, k: int, i: int)
    requires
        0 <= k <= rs.len(),
        forall|j: int| 0 <= j < rs.len() ==> (#[trigger] rs[j]).len() < 65536,
    ensures
        concat(rs, k).len() == lens_sum(rs, k),
        0 <= i < k ==> concat(rs, k).subrange(lens_sum(rs, i), lens_sum(rs, i) + rs[i].len()) == rs[i],
    decreases k,
{
    if k > 0 {
        lemma_concat_at(rs, k - 1, i);
        assert(rs[k - 1].len() < 65536);
        let prev = concat(rs, k - 1);
        assert(concat(rs, k) == prev + rs[k - 1]);
        if i == k - 1 {
            assert(concat(rs, k).subrange(lens_sum(rs, i), lens_sum(rs, i) + rs[i].len()) =~= rs[i]);
        } else if 0 <= i < k - 1 {
            assert(rs[i].len() < 65536);
            assert(lens_sum(rs, i + 1) == lens_sum(rs, i) + rs[i].len());
            lemma_lens_sum_monotone(rs, i + 1, k - 1);
            assert(lens_sum(rs, i) >= 0) by {
                lemma_lens_sum_monotone(rs, 0, i);
            }
            assert(concat(rs, k).subrange(lens_sum(rs, i), lens_sum(rs, i) + rs[i].len()) =~= prev.subrange(
                lens_sum(rs, i),
                lens_sum(rs, i) + rs[i].len(),
            ));
        }
    }
}

/// In a Multiple Service Packet whose offsets fit, the `i`-th entry of the
/// offset table points at the `i`-th request, which stands there whole.
#[verifier::spinoff_prover]
#[verifier::rlimit(30)]
pub proof fn lemma_msp_layout(rs: Seq<Seq<u8>>, i: int)
    requires
        msp_fits(rs),
        4 + 2 * rs.len() < 65536,
        0 <= i < rs.len(),
        forall|j: int| 0 <= j < rs.len() ==> (#[trigger] rs[j]).len() < 65536,
    ensures
        le16(spec_msp_request(rs), 4 + 2 * i) == msp_offset(rs, i),
        spec_msp_request(rs).subrange(msp_offset(rs, i), msp_offset(rs, i) + rs[i].len()) == rs[i],
{
    let n = rs.len() as int;
    let req = spec_msp_request(rs);
    let head = seq![0x0Au8, 0x00u8] + u16_bytes(n % 65536);
    let table = offset_table(rs, n);
    let body = concat(rs, n);
    lemma_offset_table(rs, n, i);
    lemma_concat_at(rs, n, i);
    lemma_lens_sum_monotone(rs, i, n);
    lemma_lens_sum_monotone(rs, 0, i);
    assert(0 <= msp_offset(rs, i) <= 0xFFFF);
    assert(req == head + table + body);
    assert(req.subrange(4 + 2 * i, 4 + 2 * i + 2) =~= table.subrange(2 * i, 2 * i + 2));
    crate::le::lemma_le16_at(req, 4 + 2 * i, msp_offset(rs, i));
    let at = msp_offset(rs, i);
    assert(at == 4 + 2 * n + lens_sum(rs, i));
    assert(rs[i].len() < 65536);
    assert(lens_sum(rs, i + 1) == lens_sum(rs, i) + rs[i].len());
    lemma_lens_sum_monotone(rs, i + 1, n);
    assert(req.subrange(at, at + rs[i].len()) =~= body.subrange(lens_sum(rs, i), lens_sum(rs, i) + rs[i].len()));
}

/// Whether the offsets of a Multiple Service Packet of these requests fit
/// in 16 bits, as `build_cip_multiple_service_request` needs.
pub fn multiple_service_request_fits(requests: &[Vec<u8>]) -> (r: bool)
    ensures
        r == msp_fits(views(requests@)),
{
    let ghost rs = views(requests@);
    let n = requests.len();
    let mut total: u64 = ((4 + 2 * (n as u64 % 32768)) % 65536) as u64;
    assert(total == (4 + 2 * rs.len()) % 65536) by (nonlinear_arith)
        requires
            total == (4 + 2 * (n % 32768)) % 65536,
            n == rs.len(),
    ;
    let mut i: usize = 0;
    while i < n
        invariant
            n == requests@.len(),
            rs == views(requests@),
            i <= n,
            total == msp_offset(rs, i as int),
            total <= 0xFFFF,
        decreases n - i,
    {
        proof {
            assert(rs[i as int] == requests@[i as int]@);
        }
        total = total + (requests[i].len() % 65536) as u64;
        i = i + 1;
        if total > 0xFFFF {
            proof {
                lemma_lens_sum_monotone(rs, i as int, n as int);
            }
            return false;
        }
    }
    true
}

/// Number of entries that a batched reply announces.
pub open spec fn reply_count(buf: Seq<u8>) -> int {
    le16(buf, 2)
}

/// Offset of the `i`-th entry of a batched reply.
pub open spec fn reply_offset(buf: Seq<u8>, i: int) -> int {
    le16(buf, 4 + 2 * i)
}

/// End of the offset table of a batched reply.
pub open spec fn offsets_end(buf: Seq<u8>) -> int {
    4 + 2 * reply_count(buf)
}

/// What one entry of a batched reply gives: `0xFF` for an entry whose
/// offset points into the header, that runs past the end or is not a read
/// reply (0xCC, 0x00), the general status of a failed service, a unit for a
/// reply without data, else the value that the rest of the packet decodes
/// to.
pub open spec fn entry_result(buf: Seq<u8>, off: int) -> MultiResult<CipValue> {
    if off < offsets_end(buf) || off + 4 > buf.len() {
        MultiResult::Failure(0xFF)
    } else if buf[off] != 0xCC || buf[off + 1] != 0x00 {
        MultiResult::Failure(0xFF)
    } else {
        let header_end = off + 4 + 2 * buf[off + 3];
        if header_end > buf.len() {
            MultiResult::Failure(0xFF)
        } else if buf[off + 2] != 0 {
            MultiResult::Failure(buf[off + 2])
        } else if header_end == buf.len() {
            MultiResult::Success(CipValue::Unit)
        } else {
            match spec_decode_cip_response(buf.subrange(header_end, buf.len() as int)) {
                Some(v) => MultiResult::Success(v),
                None => MultiResult::Failure(0xFF),
            }
        }
    }
}

/// The results of a batched reply. Nothing comes of a reply shorter than its
/// header, one that announces no entry or more than 64, or one whose offset
/// table is cut off. Offsets that go backwards give one `0xFF` failure per
/// entry. Otherwise each entry gives its result, in the order of the offset
/// table.
pub open spec fn spec_parse_msp_reply(buf: Seq<u8>) -> Seq<MultiResult<CipValue>> {
    let n = reply_count(buf);
    if buf.len() < 4 || n == 0 || n > 64 || buf.len() < offsets_end(buf) {
        Seq::empty()
    } else if exists|i: int|
        #![trigger reply_offset(buf, i)]
        0 <= i < n - 1 && reply_offset(buf, i + 1) < reply_offset(buf, i) {
        Seq::new(n as nat, |i: int| MultiResult::Failure(0xFF))
    } else {
        Seq::new(n as nat, |i: int| entry_result(buf, reply_offset(buf, i)))
    }
}

fn entry_result_at(buf: &[u8], off: usize, end: usize) -> (r: MultiResult<CipValue>)
    requires
        end == offsets_end(buf@),
    ensures
        same_result(r, entry_result(buf@, off as int)),
{
    if off < end || off > buf.len() || buf.len() - off < 4 {
        return MultiResult::Failure(0xFF);
    }
    if buf[off] != 0xCC || buf[off + 1] != 0x00 {
        return MultiResult::Failure(0xFF);
    }
    let general_status = buf[off + 2];
    let ext_bytes = buf[off + 3] as usize * 2;
    if ext_bytes > buf.len() - (off + 4) {
        return MultiResult::Failure(0xFF);
    }
    let header_end = off + 4 + ext_bytes;
    if general_status != 0 {
        return MultiResult::Failure(general_status);
    }
    if header_end == buf.len() {
        return MultiResult::Success(CipValue::Unit);
    }
    match decode_cip_response(&buf[header_end..buf.len()]) {
        Some(v) => MultiResult::Success(v),
        None => MultiResult::Failure(0xFF),
    }
}

/// `a` and `b` are the same result; texts are compared by their characters.
pub open spec fn same_result(a: MultiResult<CipValue>, b: MultiResult<CipValue>) -> bool {
    match a {
        MultiResult::Success(x) => b matches MultiResult::Success(y) && same_value(x, y),
        MultiResult::Failure(e) => b == MultiResult::<CipValue>::Failure(e),
    }
}

fn read_offsets(buf: &[u8], count: usize) -> (offsets: Vec<usize>)
    requires
        count == reply_count(buf@),
        0 < count <= 64,
        offsets_end(buf@) <= buf@.len(),
    ensures
        offsets@.len() == count,
        forall|j: int| 0 <= j < count ==> offsets@[j] == reply_offset(buf@, j),
{
    let mut offsets: Vec<usize> = Vec::new();
    let mut i: usize = 0;
    while i < count
        invariant
            count == reply_count(buf@),
            0 < count <= 64,
            offsets_end(buf@) <= buf@.len(),
            i <= count,
            offsets@.len() == i,
            forall|j: int| 0 <= j < i ==> offsets@[j] == reply_offset(buf@, j),
        decreases count - i,
    {
        offsets.push(get_u16(buf, 4 + i * 2) as usize);
        i = i + 1;
    }
    offsets
}

fn offsets_go_backwards(buf: &[u8], offsets: &Vec<usize>) -> (b: bool)
    requires
        offsets@.len() == reply_count(buf@),
        forall|j: int| 0 <= j < offsets@.len() ==> offsets@[j] == reply_offset(buf@, j),
    ensures
        b == exists|i: int|
            #![trigger reply_offset(buf@, i)]
            0 <= i < reply_count(buf@) - 1 && reply_offset(buf@, i + 1) < reply_offset(buf@, i),
{
    let count = offsets.len();
    let mut w: usize = 0;
    while w + 1 < count
        invariant
            count == offsets@.len(),
            count <= 65535,
            w <= count,
            offsets@.len() == reply_count(buf@),
            forall|j: int| 0 <= j < offsets@.len() ==> offsets@[j] == reply_offset(buf@, j),
            forall|j: int|
                0 <= j < w && j < count - 1 ==> #[trigger] reply_offset(buf@, j) <= reply_offset(
                    buf@,
                    j + 1,
                ),
        decreases count - w,
    {
        if offsets[w + 1] < offsets[w] {
            assert(reply_offset(buf@, w + 1) < reply_offset(buf@, w as int));
            return true;
        }
        w = w + 1;
    }
    false
}

/// Parses a Multiple Service Packet reply into one result per service, in
/// order (see `spec_parse_msp_reply` for malformed replies).
pub fn parse_cip_multiple_service_response(buf: &[u8]) -> (results: Vec<MultiResult<CipValue>>)
    ensures
        results@.len() == spec_parse_msp_reply(buf@).len(),
        forall|i: int|
            0 <= i < results@.len() ==> same_result(
                #[trigger] results@[i],
                spec_parse_msp_reply(buf@)[i],
            ),
        buf@.len() >= 4 && 1 <= reply_count(buf@) <= 64 && buf@.len() >= offsets_end(buf@)
            ==> results@.len() == reply_count(buf@),
{
    let mut results: Vec<MultiResult<CipValue>> = Vec::new();
    if buf.len() < 4 {
        return results;
    }
    let count = get_u16(buf, 2) as usize;
    if count == 0 || count > 64 {
        return results;
    }
    if buf.len() < 4 + count * 2 {
        return results;
    }
    let offsets = read_offsets(buf, count);
    if offsets_go_backwards(buf, &offsets) {
        let mut k: usize = 0;
        while k < count
            invariant
                k <= count,
                results@ == Seq::new(k as nat, |i: int| MultiResult::<CipValue>::Failure(0xFF)),
            decreases count - k,
        {
            results.push(MultiResult::Failure(0xFF));
            k = k + 1;
            assert(results@ =~= Seq::new(k as nat, |i: int| MultiResult::<CipValue>::Failure(0xFF)));
        }
        return results;
    }
    let end = 4 + count * 2;
    let mut b: usize = 0;
    while b < count
        invariant
            count == reply_count(buf@),
            end == offsets_end(buf@),
            offsets@.len() == count,
            forall|j: int| 0 <= j < count ==> offsets@[j] == reply_offset(buf@, j),
            b <= count,
            results@.len() == b,
            forall|i: int|
                0 <= i < b ==> same_result(
                    #[trigger] results@[i],
                    entry_result(buf@, reply_offset(buf@, i)),
                ),
        decreases count - b,
    {
        let r = entry_result_at(buf, offsets[b], end);
        results.push(r);
        b = b + 1;
    }
    let ghost expected = spec_parse_msp_reply(buf@);
    assert(expected =~= Seq::new(count as nat, |i: int| entry_result(buf@, reply_offset(buf@, i))));
    results
}

/// The reply of a Write Tag: a write reply header (0xCD, 0x00), a general
/// status and extended status words that fit; `Err(0xFF)` for a malformed
/// reply, `Err(status)` for a failed write.
pub open spec fn spec_write_reply(buf: Seq<u8>) -> Result<(), u8> {
    if buf.len() < 4 || buf[0] != 0xCD || buf[1] != 0x00 {
        Err(0xFF)
    } else if buf.len() < 4 + 2 * buf[3] {
        Err(0xFF)
    } else if buf[2] != 0 {
        Err(buf[2])
    } else {
        Ok(())
    }
}

pub fn decode_write_response(buf: &[u8]) -> (r: Result<(), u8>)
    ensures
        r == spec_write_reply(buf@),
{
    if buf.len() < 4 {
        return Err(0xFF);
    }
    if buf[0] != 0xCD || buf[1] != 0x00 {
        return Err(0xFF);
    }
    let general_status = buf[2];
    let ext_words = buf[3] as usize;
    let needed = 4 + ext_words * 2;
    if buf.len() < needed {
        return Err(0xFF);
    }
    if general_status != 0 {
        return Err(general_status);
    }
    Ok(())
}

proof fn lemma_msp_len(rs: Seq<Seq<u8>>)
    requires
        forall|j: int| 0 <= j < rs.len() ==> (#[trigger] rs[j]).len() < 65536,
    ensures
        spec_msp_request(rs).len() == 4 + 2 * rs.len() + lens_sum(rs, rs.len() as int),
{
    lemma_offset_table_len(rs, rs.len() as int);
    lemma_concat_at(rs, rs.len() as int, 0);
}

/// Changing the first byte of a packet keeps what stands after it.
proof fn lemma_first_byte_changed(q: Seq<u8>, x: u8, i: int, off: int, e: Seq<u8>)
    requires
        0 <= i,
        6 + 2 * i <= q.len(),
        1 <= off,
        off + e.len() <= q.len(),
        q.subrange(off, off + e.len()) == e,
    ensures
        le16(q.update(0, x), 4 + 2 * i) == le16(q, 4 + 2 * i),
        q.update(0, x).subrange(off, off + e.len()) == e,
{
    let r = q.update(0, x);
    assert(r[4 + 2 * i] == q[4 + 2 * i]);
    assert(r[5 + 2 * i] == q[5 + 2 * i]);
    assert(r.subrange(off, off + e.len()) =~= q.subrange(off, off + e.len()));
}

/// In the reply form of a packet, the offset table and the entries are
/// those of the request form.
proof fn lemma_reply_entry(rs: Seq<Seq<u8>>, i: int)
    requires
        1 <= rs.len() <= 64,
        msp_fits(rs),
        0 <= i < rs.len(),
        forall|j: int| 0 <= j < rs.len() ==> (#[trigger] rs[j]).len() < 65536,
    ensures
        reply_offset(spec_msp_request(rs).update(0, 0x8Au8), i) == msp_offset(rs, i),
        msp_offset(rs, i) >= 4 + 2 * rs.len(),
        spec_msp_request(rs).update(0, 0x8Au8).subrange(msp_offset(rs, i), msp_offset(rs, i) + rs[i].len())
            == rs[i],
{
    let n = rs.len() as int;
    lemma_msp_len(rs);
    lemma_msp_layout(rs, i);
    lemma_lens_sum_monotone(rs, 0, i);
    lemma_lens_sum_monotone(rs, i, n);
    lemma_lens_sum_monotone(rs, i + 1, n);
    assert(rs[i].len() < 65536);
    assert(lens_sum(rs, i + 1) == lens_sum(rs, i) + rs[i].len());
    lemma_first_byte_changed(spec_msp_request(rs), 0x8Au8, i, msp_offset(rs, i), rs[i]);
}

/// A reply whose offsets are sorted and all point past the offset table is
/// read entry by entry.
proof fn lemma_parse_sorted_reply(r: Seq<u8>, n: int)
    requires
        1 <= n <= 64,
        reply_count(r) == n,
        r.len() >= 4 + 2 * n,
        forall|j: int| 0 <= j < n ==> #[trigger] reply_offset(r, j) >= 4 + 2 * n,
        forall|j: int| 0 <= j < n - 1 ==> #[trigger] reply_offset(r, j) <= reply_offset(r, j + 1),
    ensures
        spec_parse_msp_reply(r) == Seq::new(n as nat, |i: int| entry_result(r, reply_offset(r, i))),
{
    assert(!exists|i: int|
        #![trigger reply_offset(r, i)]
        0 <= i < n - 1 && reply_offset(r, i + 1) < reply_offset(r, i));
    assert(spec_parse_msp_reply(r) =~= Seq::new(n as nat, |i: int| entry_result(r, reply_offset(r, i))));
}

/// The reply form of a packet announces as many entries as it holds.
proof fn lemma_reply_count(rs: Seq<Seq<u8>>)
    requires
        1 <= rs.len() <= 64,
    ensures
        reply_count(spec_msp_request(rs).update(0, 0x8Au8)) == rs.len(),
        spec_msp_request(rs).update(0, 0x8Au8).len() == spec_msp_request(rs).len(),
{
    let n = rs.len() as int;
    let q = spec_msp_request(rs);
    lemma_offset_table_len(rs, n);
    assert(q.subrange(2, 4) =~= u16_bytes(n % 65536));
    crate::le::lemma_le16_at(q, 2, n);
    let r = q.update(0, 0x8Au8);
    assert(r[2] == q[2]);
    assert(r[3] == q[3]);
}

/// A reply laid out as a Multiple Service Packet lays out its requests
/// (under the reply service 0x8A) is read entry by entry: the parser finds
/// the `i`-th reply at the offset where it stands, and gives what that entry
/// reads as.
pub proof fn lemma_msp_reply_entries(rs: Seq<Seq<u8>>)
    requires
        1 <= rs.len() <= 64,
        msp_fits(rs),
        forall|j: int| 0 <= j < rs.len() ==> (#[trigger] rs[j]).len() < 65536,
    ensures
        ({
            let r = spec_msp_request(rs).update(0, 0x8Au8);
            &&& spec_parse_msp_reply(r) == Seq::new(
                rs.len(),
                |i: int| entry_result(r, msp_offset(rs, i)),
            )
            &&& forall|i: int|
                0 <= i < rs.len() ==> r.subrange(msp_offset(rs, i), msp_offset(rs, i) + rs[i].len())
                    == rs[i]
        }),
{
    let n = rs.len() as int;
    let r = spec_msp_request(rs).update(0, 0x8Au8);
    lemma_reply_count(rs);
    lemma_msp_len(rs);
    lemma_lens_sum_monotone(rs, 0, n);
    assert forall|i: int| 0 <= i < n implies #[trigger] reply_offset(r, i) == msp_offset(rs, i)
        && msp_offset(rs, i) >= 4 + 2 * n && r.subrange(msp_offset(rs, i), msp_offset(rs, i)
        + rs[i].len()) == rs[i] by {
        lemma_reply_entry(rs, i);
    }
    assert forall|j: int| 0 <= j < n - 1 implies #[trigger] reply_offset(r, j) <= reply_offset(r, j + 1) by {
        lemma_reply_entry(rs, j);
        lemma_reply_entry(rs, j + 1);
        lemma_lens_sum_monotone(rs, j, j + 1);
    }
    lemma_parse_sorted_reply(r, n);
    assert forall|i: int|
        0 <= i < rs.len() implies r.subrange(msp_offset(rs, i), msp_offset(rs, i) + rs[i].len())
        == rs[i] by {
        lemma_reply_entry(rs, i);
    }
    assert(Seq::new(rs.len(), |i: int| entry_result(r, reply_offset(r, i))) =~= Seq::new(
        rs.len(),
        |i: int| entry_result(r, msp_offset(rs, i)),
    ));
}

} // verus!
