//! The text grammar of a Logix tag reference: separator search, the
//! whitespace trim that array subscripts get, and decimal subscripts.
use vstd::prelude::*;

verus! {

/// Index of the first `c` in `s`, or `s.len()` when there is none.
pub open spec fn first_index(s: Seq<u8>, c: u8) -> int
    decreases s.len(),
{
    if s.len() == 0 {
        0
    } else if s[0] == c {
        0
    } else {
        1 + first_index(s.drop_first(), c)
    }
}

pub proof fn lemma_first_index_bounds(s: Seq<u8>, c: u8)
    ensures
        0 <= first_index(s, c) <= s.len(),
        first_index(s, c) < s.len() ==> s[first_index(s, c)] == c,
        forall|j: int| 0 <= j < first_index(s, c) ==> s[j] != c,
    decreases s.len(),
{
    if s.len() > 0 && s[0] != c {
        lemma_first_index_bounds(s.drop_first(), c);
        assert forall|j: int| 0 <= j < first_index(s, c) implies s[j] != c by {
            if j > 0 {
                assert(s[j] == s.drop_first()[j - 1]);
            }
        }
    }
}

/// `k` is the first position of `c` exactly when nothing before it is `c`
/// and it is either the end or a `c`.
pub proof fn lemma_first_index_is(s: Seq<u8>, c: u8, k: int)
    requires
        0 <= k <= s.len(),
        forall|j: int| 0 <= j < k ==> s[j] != c,
        k < s.len() ==> s[k] == c,
    ensures
        first_index(s, c) == k,
    decreases s.len(),
{
    if s.len() > 0 && k > 0 {
        assert forall|j: int| 0 <= j < k - 1 implies s.drop_first()[j] != c by {
            assert(s.drop_first()[j] == s[j + 1]);
        }
        lemma_first_index_is(s.drop_first(), c, k - 1);
    }
}

/// Position of the first `c` in `b[start..end]`, as an index into `b`
/// (`end` when there is none).
pub fn find_byte(b: &[u8], start: usize, end: usize, c: u8) -> (k: usize)
    requires
        start <= end <= b@.len(),
    ensures
        start <= k <= end,
        k - start == first_index(b@.subrange(start as int, end as int), c),
{
    let mut i = start;
    while i < end && b[i] != c
        invariant
            start <= i <= end,
            end <= b@.len(),
            forall|j: int| start <= j < i ==> b@[j] != c,
        decreases end - i,
    {
        i = i + 1;
    }
    proof {
        let s = b@.subrange(start as int, end as int);
        assert forall|j: int| 0 <= j < i - start implies s[j] != c by {
            assert(s[j] == b@[start + j]);
        }
        lemma_first_index_is(s, c, i - start);
    }
    i
}

/// A whitespace byte of the one-byte UTF-8 range (tab to carriage return,
/// and space).
pub open spec fn is_ws1(a: u8) -> bool {
    (9 <= a <= 13) || a == 32
}

/// A two-byte UTF-8 encoding of a whitespace character (U+0085, U+00A0).
pub open spec fn is_ws2(a: u8, b: u8) -> bool {
    a == 0xC2 && (b == 0x85 || b == 0xA0)
}

/// A three-byte UTF-8 encoding of a whitespace character (U+1680,
/// U+2000..U+200A, U+2028, U+2029, U+202F, U+205F, U+3000).
pub open spec fn is_ws3(a: u8, b: u8, c: u8) -> bool {
    ||| (a == 0xE1 && b == 0x9A && c == 0x80)
    ||| (a == 0xE2 && b == 0x80 && ((0x80 <= c <= 0x8A) || c == 0xA8 || c == 0xA9 || c == 0xAF))
    ||| (a == 0xE2 && b == 0x81 && c == 0x9F)
    ||| (a == 0xE3 && b == 0x80 && c == 0x80)
}

/// Byte width of the whitespace character that starts `s` (0 if none).
pub open spec fn ws_prefix_len(s: Seq<u8>) -> int {
    if s.len() >= 1 && is_ws1(s[0]) {
        1
    } else if s.len() >= 2 && is_ws2(s[0], s[1]) {
        2
    } else if s.len() >= 3 && is_ws3(s[0], s[1], s[2]) {
        3
    } else {
        0
    }
}

/// Byte width of the whitespace character that ends `s` (0 if none).
pub open spec fn ws_suffix_len(s: Seq<u8>) -> int {
    let n = s.len() as int;
    if n >= 1 && is_ws1(s[n - 1]) {
        1
    } else if n >= 2 && is_ws2(s[n - 2], s[n - 1]) {
        2
    } else if n >= 3 && is_ws3(s[n - 3], s[n - 2], s[n - 1]) {
        3
    } else {
        0
    }
}

/// `s` without its leading whitespace characters.
pub open spec fn trim_start(s: Seq<u8>) -> Seq<u8>
    decreases s.len(),
{
    if ws_prefix_len(s) == 0 {
        s
    } else {
        trim_start(s.subrange(ws_prefix_len(s), s.len() as int))
    }
}

/// `s` without its trailing whitespace characters.
pub open spec fn trim_end(s: Seq<u8>) -> Seq<u8>
    decreases s.len(),
{
    if ws_suffix_len(s) == 0 {
        s
    } else {
        trim_end(s.subrange(0, s.len() - ws_suffix_len(s)))
    }
}

/// `s` without leading and trailing whitespace, as `str::trim` gives it.
pub open spec fn trim(s: Seq<u8>) -> Seq<u8> {
    trim_end(trim_start(s))
}

pub open spec fn is_digit(a: u8) -> bool {
    48 <= a <= 57
}

pub open spec fn all_digits(s: Seq<u8>) -> bool {
    forall|i: int| 0 <= i < s.len() ==> is_digit(#[trigger] s[i])
}

/// The decimal value of a string of digits.
pub open spec fn digits_value(s: Seq<u8>) -> int
    decreases s.len(),
{
    if s.len() == 0 {
        0
    } else {
        10 * digits_value(s.subrange(0, s.len() - 1)) + (s[s.len() - 1] - 48)
    }
}

/// What `u32::from_str` gives for `s`: an optional `+`, then one or more
/// decimal digits whose value fits in 32 bits.
pub open spec fn parse_u32(s: Seq<u8>) -> Option<u32> {
    let d = if s.len() > 0 && s[0] == 43 {
        s.drop_first()
    } else {
        s
    };
    if s.len() == 0 || d.len() == 0 || !all_digits(d) || digits_value(d) > 0xFFFF_FFFF {
        None
    } else {
        Some(digits_value(d) as u32)
    }
}

/// An array subscript: the trimmed text read as a `u32`, and 0 when it is
/// not one.
pub open spec fn parse_index(s: Seq<u8>) -> u32 {
    match parse_u32(trim(s)) {
        Some(v) => v,
        None => 0,
    }
}

fn ws_prefix_at(b: &[u8], i: usize, end: usize) -> (w: usize)
    requires
        i <= end <= b@.len(),
    ensures
        w == ws_prefix_len(b@.subrange(i as int, end as int)),
{
    let n = end - i;
    if n >= 1 && ((9 <= b[i] && b[i] <= 13) || b[i] == 32) {
        1
    } else if n >= 2 && b[i] == 0xC2 && (b[i + 1] == 0x85 || b[i + 1] == 0xA0) {
        2
    } else if n >= 3 && is_ws3_exec(b[i], b[i + 1], b[i + 2]) {
        3
    } else {
        0
    }
}

fn ws_suffix_at(b: &[u8], start: usize, j: usize) -> (w: usize)
    requires
        start <= j <= b@.len(),
    ensures
        w == ws_suffix_len(b@.subrange(start as int, j as int)),
{
    let n = j - start;
    if n >= 1 && ((9 <= b[j - 1] && b[j - 1] <= 13) || b[j - 1] == 32) {
        1
    } else if n >= 2 && b[j - 2] == 0xC2 && (b[j - 1] == 0x85 || b[j - 1] == 0xA0) {
        2
    } else if n >= 3 && is_ws3_exec(b[j - 3], b[j - 2], b[j - 1]) {
        3
    } else {
        0
    }
}

fn is_ws3_exec(a: u8, b: u8, c: u8) -> (r: bool)
    ensures
        r == is_ws3(a, b, c),
{
    (a == 0xE1 && b == 0x9A && c == 0x80) || (a == 0xE2 && b == 0x80 && ((0x80 <= c && c
        <= 0x8A) || c == 0xA8 || c == 0xA9 || c == 0xAF)) || (a == 0xE2 && b == 0x81 && c
        == 0x9F) || (a == 0xE3 && b == 0x80 && c == 0x80)
}

/// The bounds of `trim(b[start..end])` inside `b`.
fn trim_bounds(b: &[u8], start: usize, end: usize) -> (r: (usize, usize))
    requires
        start <= end <= b@.len(),
    ensures
        start <= r.0 <= r.1 <= end,
        b@.subrange(r.0 as int, r.1 as int) == trim(b@.subrange(start as int, end as int)),
{
    let mut lo = start;
    loop
        invariant
            start <= lo <= end,
            end <= b@.len(),
            trim_start(b@.subrange(start as int, end as int)) == trim_start(
                b@.subrange(lo as int, end as int),
            ),
        ensures
            start <= lo <= end,
            trim_start(b@.subrange(start as int, end as int)) == b@.subrange(lo as int, end as int),
        decreases end - lo,
    {
        let w = ws_prefix_at(b, lo, end);
        if w == 0 {
            break;
        }
        proof {
            let s = b@.subrange(lo as int, end as int);
            assert(s.subrange(w as int, s.len() as int) =~= b@.subrange(lo + w, end as int));
        }
        lo = lo + w;
    }
    let mut hi = end;
    loop
        invariant
            lo <= hi <= end,
            end <= b@.len(),
            trim_start(b@.subrange(start as int, end as int)) == b@.subrange(lo as int, end as int),
            trim_end(b@.subrange(lo as int, end as int)) == trim_end(
                b@.subrange(lo as int, hi as int),
            ),
        ensures
            lo <= hi <= end,
            trim_end(b@.subrange(lo as int, end as int)) == b@.subrange(lo as int, hi as int),
        decreases hi - lo,
    {
        let w = ws_suffix_at(b, lo, hi);
        if w == 0 {
            break;
        }
        proof {
            let s = b@.subrange(lo as int, hi as int);
            assert(s.subrange(0, s.len() - w) =~= b@.subrange(lo as int, hi - w));
        }
        hi = hi - w;
    }
    (lo, hi)
}

pub proof fn lemma_digits_step(s: Seq<u8>, i: int)
    requires
        0 <= i < s.len(),
    ensures
        digits_value(s.subrange(0, i + 1)) == 10 * digits_value(s.subrange(0, i)) + (s[i] - 48),
{
    let t = s.subrange(0, i + 1);
    assert(t.subrange(0, t.len() - 1) =~= s.subrange(0, i));
}

pub proof fn lemma_digits_nonneg(s: Seq<u8>)
    requires
        all_digits(s),
    ensures
        digits_value(s) >= 0,
    decreases s.len(),
{
    if s.len() > 0 {
        lemma_digits_nonneg(s.subrange(0, s.len() - 1));
    }
}

/// `u32::from_str` on the text `b[start..end]`.
pub fn parse_u32_at(b: &[u8], start: usize, end: usize) -> (r: Option<u32>)
    requires
        start <= end <= b@.len(),
    ensures
        r == parse_u32(b@.subrange(start as int, end as int)),
{
    let ghost s = b@.subrange(start as int, end as int);
    if start == end {
        return None;
    }
    let ds = if b[start] == 43 {
        start + 1
    } else {
        start
    };
    let ghost d = b@.subrange(ds as int, end as int);
    proof {
        if b[start as int] == 43 {
            assert(s.drop_first() =~= d);
        } else {
            assert(s =~= d);
        }
    }
    if ds == end {
        return None;
    }
    // The value of the digits read so far, held at 2^32 once it passes u32.
    let mut acc: u64 = 0;
    let mut i = ds;
    while i < end
        invariant
            ds <= i <= end,
            end <= b@.len(),
            d == b@.subrange(ds as int, end as int),
            s == b@.subrange(start as int, end as int),
            s.len() > 0,
            d.len() > 0,
            d == (if s[0] == 43 {
                s.drop_first()
            } else {
                s
            }),
            forall|j: int| 0 <= j < i - ds ==> is_digit(d[j]),
            acc == (if digits_value(d.subrange(0, i - ds)) > 4294967296 {
                4294967296
            } else {
                digits_value(d.subrange(0, i - ds))
            }),
            digits_value(d.subrange(0, i - ds)) >= 0,
        decreases end - i,
    {
        let c = b[i];
        if c < 48 || c > 57 {
            proof {
                assert(!is_digit(d[i - ds]));
                assert(!all_digits(d));
            }
            return None;
        }
        proof {
            lemma_digits_step(d, i - ds);
        }
        let next = acc * 10 + (c - 48) as u64;
        acc = if next > 4294967296 {
            4294967296
        } else {
            next
        };
        i = i + 1;
    }
    proof {
        assert(d.subrange(0, d.len() as int) =~= d);
        assert(all_digits(d));
    }
    if acc > 0xFFFF_FFFF {
        None
    } else {
        Some(acc as u32)
    }
}

/// The array subscript written in `b[start..end]`.
pub fn parse_index_at(b: &[u8], start: usize, end: usize) -> (v: u32)
    requires
        start <= end <= b@.len(),
    ensures
        v == parse_index(b@.subrange(start as int, end as int)),
{
    let (lo, hi) = trim_bounds(b, start, end);
    match parse_u32_at(b, lo, hi) {
        Some(v) => v,
        None => 0,
    }
}

} // verus!
