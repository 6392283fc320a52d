use vstd::prelude::*;
use crate::name::{all_digits, char_vec, digits_u32, digits_value, is_digit};

verus! {

/// The characters with Unicode's `White_Space` property, which `str::trim` removes.
pub open spec fn is_white_space(c: char) -> bool {
    ('\u{9}' <= c && c <= '\u{d}') || c == ' ' || c == '\u{85}' || c == '\u{a0}'
        || c == '\u{1680}' || ('\u{2000}' <= c && c <= '\u{200a}') || c == '\u{2028}'
        || c == '\u{2029}' || c == '\u{202f}' || c == '\u{205f}' || c == '\u{3000}'
}

/// The end of the white space that starts at `i`.
pub open spec fn lead_end(s: Seq<char>, i: int) -> int
    decreases s.len() - i,
{
    if 0 <= i < s.len() && is_white_space(s[i]) {
        lead_end(s, i + 1)
    } else {
        i
    }
}

/// The start of the white space that ends at `j`, not going below `lo`.
pub open spec fn trail_start(s: Seq<char>, lo: int, j: int) -> int
    decreases j - lo,
{
    if lo < j <= s.len() && is_white_space(s[j - 1]) {
        trail_start(s, lo, j - 1)
    } else {
        j
    }
}

/// `s` without white space at either end.
pub open spec fn trimmed(s: Seq<char>) -> Seq<char> {
    let a = lead_end(s, 0);
    s.subrange(a, trail_start(s, a, s.len() as int))
}

/// An unsigned decimal number as `u32::from_str` reads it: an optional `+`,
/// then one or more ASCII digits, with a value that fits in a `u32`.
pub open spec fn u32_text(s: Seq<char>) -> Option<u32> {
    let d = if s.len() > 0 && s[0] == '+' {
        s.drop_first()
    } else {
        s
    };
    if d.len() > 0 && all_digits(d) && digits_value(d) <= u32::MAX {
        Some(digits_value(d) as u32)
    } else {
        None
    }
}

/// The version that the database reports, from the text of the query's output.
pub open spec fn stored_version(out: Seq<char>) -> Option<u32> {
    u32_text(trimmed(out))
}

fn white_space(c: char) -> (r: bool)
    ensures
        r == is_white_space(c),
{
    ('\u{9}' <= c && c <= '\u{d}') || c == ' ' || c == '\u{85}' || c == '\u{a0}'
        || c == '\u{1680}' || ('\u{2000}' <= c && c <= '\u{200a}') || c == '\u{2028}'
        || c == '\u{2029}' || c == '\u{202f}' || c == '\u{205f}' || c == '\u{3000}'
}

/// Reads the schema version out of what the version query printed; `None` where
/// the text, without surrounding white space, is not a `u32`.
pub fn parse_stored_version(out: &str) -> (r: Option<u32>)
    ensures
        r == stored_version(out@),
{
    let s = char_vec(out);
    let n = s.len();
    let mut a: usize = 0;
    while a < n && white_space(s[a])
        invariant
            a <= n == s.len(),
            lead_end(s@, a as int) == lead_end(s@, 0),
        decreases n - a,
    {
        a = a + 1;
    }
    let mut b: usize = n;
    while b > a && white_space(s[b - 1])
        invariant
            a <= b <= n == s.len(),
            a == lead_end(s@, 0),
            trail_start(s@, a as int, b as int) == trail_start(s@, a as int, n as int),
        decreases b,
    {
        b = b - 1;
    }
    let ghost t = s@.subrange(a as int, b as int);
    assert(t == trimmed(out@));
    let mut lo = a;
    if a < b && s[a] == '+' {
        lo = a + 1;
        assert(t.drop_first() =~= s@.subrange(lo as int, b as int));
    }
    let ghost d = s@.subrange(lo as int, b as int);
    assert(t.len() > 0 && t[0] == '+' ==> t.drop_first() == d);
    assert(!(t.len() > 0 && t[0] == '+') ==> t == d);
    if lo == b {
        return None;
    }
    let mut i = lo;
    while i < b
        invariant
            lo <= i <= b <= s.len(),
            d == s@.subrange(lo as int, b as int),
            s@ == out@,
            t == trimmed(out@),
            t.len() > 0 && t[0] == '+' ==> t.drop_first() == d,
            !(t.len() > 0 && t[0] == '+') ==> t == d,
            forall|j: int| lo <= j < i ==> is_digit(#[trigger] s@[j]),
        decreases b - i,
    {
        if !('0' <= s[i] && s[i] <= '9') {
            assert(d[i - lo] == s@[i as int]);
            assert(!is_digit(d[i - lo]));
            assert(!all_digits(d));
            return None;
        }
        i = i + 1;
    }
    assert(all_digits(d));
    digits_u32(&s, lo, b)
}

} // verus!
