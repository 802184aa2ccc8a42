//! Building the text of messages: literal pieces, hexadecimal and decimal
//! numbers.
use vstd::prelude::*;

verus! {

/// The character of a hexadecimal digit (upper case).
pub open spec fn hex_char(d: int) -> char {
    if d < 10 {
        (48 + d) as char
    } else {
        (55 + d) as char
    }
}

/// `v` as `width` upper-case hexadecimal digits, most significant first.
pub open spec fn hex_digits(v: int, width: nat) -> Seq<char>
    decreases width,
{
    if width == 0 {
        Seq::empty()
    } else {
        hex_digits(v / 16, (width - 1) as nat).push(hex_char(v % 16))
    }
}

/// `v` in decimal, without leading zeros ("0" for zero).
pub open spec fn decimal(v: nat) -> Seq<char>
    decreases v,
{
    if v < 10 {
        seq![(48 + v) as char]
    } else {
        decimal(v / 10).push((48 + v % 10) as char)
    }
}

/// A one-character string holding the digit `d`.
fn digit_str(d: u8) -> (s: &'static str)
    requires
        d < 16,
    ensures
        s@ == seq![hex_char(d as int)],
{
    proof {
        reveal_strlit("0");
        reveal_strlit("1");
        reveal_strlit("2");
        reveal_strlit("3");
        reveal_strlit("4");
        reveal_strlit("5");
        reveal_strlit("6");
        reveal_strlit("7");
        reveal_strlit("8");
        reveal_strlit("9");
        reveal_strlit("A");
        reveal_strlit("B");
        reveal_strlit("C");
        reveal_strlit("D");
        reveal_strlit("E");
        reveal_strlit("F");
    }
    let s = match d {
        0 => "0",
        1 => "1",
        2 => "2",
        3 => "3",
        4 => "4",
        5 => "5",
        6 => "6",
        7 => "7",
        8 => "8",
        9 => "9",
        10 => "A",
        11 => "B",
        12 => "C",
        13 => "D",
        14 => "E",
        _ => "F",
    };
    assert(s@ =~= seq![hex_char(d as int)]);
    s
}

/// Appends `v` as `width` hexadecimal digits.
pub fn push_hex(s: &mut String, v: u64, width: usize)
    requires
        width <= 16,
    ensures
        final(s)@ == old(s)@ + hex_digits(v as int, width as nat),
    decreases width,
{
    if width > 0 {
        push_hex(s, v / 16, width - 1);
        s.append(digit_str((v % 16) as u8));
        assert(hex_digits(v as int, width as nat) == hex_digits((v / 16) as int, (width - 1) as nat).push(hex_char((v % 16) as int)));
        assert(final(s)@ =~= old(s)@ + hex_digits(v as int, width as nat));
    }
}

/// Appends `v` in decimal.
pub fn push_decimal(s: &mut String, v: u64)
    ensures
        final(s)@ == old(s)@ + decimal(v as nat),
    decreases v,
{
    if v >= 10 {
        push_decimal(s, v / 10);
    }
    s.append(digit_str((v % 10) as u8));
    assert(final(s)@ =~= old(s)@ + decimal(v as nat));
}

} // verus!

verus! {

/// The text that lossy UTF-8 decoding gives for `b`.
pub uninterp spec fn lossy_text(b: Seq<u8>) -> Seq<char>;

/// The text of `b`: its characters when `b` is valid UTF-8, else what lossy
/// decoding gives.
pub open spec fn utf8_text(b: Seq<u8>) -> Seq<char> {
    if vstd::utf8::valid_utf8(b) {
        vstd::utf8::decode_utf8(b)
    } else {
        lossy_text(b)
    }
}

/// `String::from_utf8_lossy` (made owned): the text of `b`, with each
/// invalid sequence replaced by U+FFFD. Stated here: the result is a
/// function of the bytes, and valid UTF-8 decodes to its characters.
#[verifier::external_body]
pub(crate) fn text_from_utf8_lossy(b: &[u8]) -> (s: String)
    ensures
        s@ == lossy_text(b@),
        vstd::utf8::valid_utf8(b@) ==> s@ == vstd::utf8::decode_utf8(b@),
{
    String::from_utf8_lossy(b).into_owned()
}

} // verus!

verus! {

/// `p` occurs in `s` starting at character `i`.
pub open spec fn occurs_at(s: Seq<char>, p: Seq<char>, i: int) -> bool {
    0 <= i && i + p.len() <= s.len() && s.subrange(i, i + p.len()) == p
}

/// `p` occurs somewhere in `s`.
pub open spec fn text_contains(s: Seq<char>, p: Seq<char>) -> bool {
    exists|i: int| occurs_at(s, p, i)
}

fn occurs_at_exec(s: &str, n: usize, p: &str, m: usize, i: usize) -> (r: bool)
    requires
        n == s@.len(),
        m == p@.len(),
        i + m <= n,
    ensures
        r == occurs_at(s@, p@, i as int),
{
    let mut j: usize = 0;
    while j < m
        invariant
            n == s@.len(),
            m == p@.len(),
            i + m <= n,
            j <= m,
            s@.subrange(i as int, i + j) == p@.subrange(0, j as int),
        decreases m - j,
    {
        if s.get_char(i + j) != p.get_char(j) {
            assert(s@.subrange(i as int, i + m)[j as int] != p@[j as int]);
            return false;
        }
        j = j + 1;
        assert(s@.subrange(i as int, i + j) =~= p@.subrange(0, j as int));
    }
    assert(p@.subrange(0, m as int) =~= p@);
    true
}

/// Whether `p` occurs in `s`.
pub fn contains_text(s: &str, p: &str) -> (r: bool)
    ensures
        r == text_contains(s@, p@),
{
    let n = s.unicode_len();
    let m = p.unicode_len();
    if m > n {
        assert(!text_contains(s@, p@));
        return false;
    }
    let last = n - m;
    let mut i: usize = 0;
    while i < last
        invariant
            n == s@.len(),
            m == p@.len(),
            last == n - m,
            i <= last,
            forall|k: int| 0 <= k < i ==> !occurs_at(s@, p@, k),
        decreases last - i,
    {
        if occurs_at_exec(s, n, p, m, i) {
            return true;
        }
        i = i + 1;
    }
    let r = occurs_at_exec(s, n, p, m, last);
    assert(r ==> text_contains(s@, p@));
    assert(!r ==> forall|k: int| !occurs_at(s@, p@, k)) by {
        if !r {
            assert forall|k: int| !occurs_at(s@, p@, k) by {
                if 0 <= k && k + p@.len() <= s@.len() {
                    assert(k <= last);
                }
            }
        }
    }
    r
}

} // verus!
