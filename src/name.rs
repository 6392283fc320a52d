use vstd::prelude::*;

verus! {

/// An ASCII decimal digit.
pub open spec fn is_digit(c: char) -> bool {
    '0' <= c && c <= '9'
}

pub open spec fn all_digits(s: Seq<char>) -> bool {
    forall|i: int| 0 <= i < s.len() ==> is_digit(#[trigger] s[i])
}

/// The number that a run of ASCII digits writes in base ten; leading zeros add nothing.
pub open spec fn digits_value(s: Seq<char>) -> nat
    decreases s.len(),
{
    if s.len() == 0 {
        0
    } else {
        digits_value(s.drop_last()) * 10 + ((s.last() as u32) - ('0' as u32)) as nat
    }
}

/// The start of the longest run of digits that ends just before `end`.
pub open spec fn digit_run_start(s: Seq<char>, end: int) -> int
    decreases end,
{
    if 0 < end <= s.len() && is_digit(s[end - 1]) {
        digit_run_start(s, end - 1)
    } else {
        end
    }
}

/// The digits of a migration file name: a name that ends with `m_<digits>.sql`
/// gives the digit run, any other name gives `None`.
pub open spec fn version_digits(s: Seq<char>) -> Option<Seq<char>> {
    let n = s.len() as int;
    if n >= 4 && s.subrange(n - 4, n) == seq!['.', 's', 'q', 'l'] {
        let k = digit_run_start(s, n - 4);
        if 2 <= k < n - 4 && s[k - 2] == 'm' && s[k - 1] == '_' {
            Some(s.subrange(k, n - 4))
        } else {
            None
        }
    } else {
        None
    }
}

/// The file name made of `prefix`, then `m_`, then `digits`, then `.sql`.
pub open spec fn migration_name(prefix: Seq<char>, digits: Seq<char>) -> Seq<char> {
    prefix + seq!['m', '_'] + digits + seq!['.', 's', 'q', 'l']
}

proof fn lemma_run_is_digits(s: Seq<char>, end: int)
    requires
        0 <= end <= s.len(),
    ensures
        0 <= digit_run_start(s, end) <= end,
        forall|j: int| digit_run_start(s, end) <= j < end ==> is_digit(#[trigger] s[j]),
    decreases end,
{
    if 0 < end && is_digit(s[end - 1]) {
        lemma_run_is_digits(s, end - 1);
    }
}

proof fn lemma_run_stops(s: Seq<char>, k: int, end: int)
    requires
        0 <= k <= end <= s.len(),
        k == 0 || !is_digit(s[k - 1]),
        forall|j: int| k <= j < end ==> is_digit(#[trigger] s[j]),
    ensures
        digit_run_start(s, end) == k,
    decreases end,
{
    if k < end {
        lemma_run_stops(s, k, end - 1);
    }
}

/// A name gives a digit run exactly where it ends with `m_`, then one or more
/// ASCII digits, then `.sql`: the run is those digits.
pub proof fn lemma_version_digits_form(s: Seq<char>, d: Seq<char>)
    ensures
        version_digits(s) == Some(d) <==> (d.len() > 0 && all_digits(d) && exists|prefix: Seq<char>|
            s == #[trigger] migration_name(prefix, d)),
{
    let n = s.len() as int;
    if version_digits(s) == Some(d) {
        let k = digit_run_start(s, n - 4);
        lemma_run_is_digits(s, n - 4);
        let prefix = s.subrange(0, k - 2);
        assert(s.subrange(n - 4, n) == seq!['.', 's', 'q', 'l']);
        assert(s =~= migration_name(prefix, d));
    }
    if d.len() > 0 && all_digits(d) && exists|prefix: Seq<char>| s == #[trigger] migration_name(prefix, d) {
        let prefix = choose|prefix: Seq<char>| s == #[trigger] migration_name(prefix, d);
        let k = prefix.len() + 2int;
        let e = k + d.len() as int;
        assert(n == e + 4);
        assert(s.subrange(n - 4, n) =~= seq!['.', 's', 'q', 'l']);
        assert(s[k - 1] == '_');
        assert forall|j: int| k <= j < e implies is_digit(#[trigger] s[j]) by {
            assert(s[j] == d[j - k]);
        }
        lemma_run_stops(s, k, e);
        assert(s.subrange(k, e) =~= d);
    }
}

/// What a file name says about a migration.
#[derive(Clone, Copy, Debug, PartialEq, Eq, Structural)]
pub enum NameVersion {
    /// The name is not of the form `m_<digits>.sql`.
    Ignored,
    /// A migration file of this version.
    Version(u32),
    /// A migration file whose version does not fit in a `u32`.
    TooLarge,
}

pub open spec fn name_version(s: Seq<char>) -> NameVersion {
    match version_digits(s) {
        None => NameVersion::Ignored,
        Some(d) => if digits_value(d) <= u32::MAX {
            NameVersion::Version(digits_value(d) as u32)
        } else {
            NameVersion::TooLarge
        },
    }
}

proof fn lemma_digits_value_grows(s: Seq<char>, i: int, j: int)
    requires
        0 <= i <= j <= s.len(),
    ensures
        digits_value(s.subrange(0, i)) <= digits_value(s.subrange(0, j)),
    decreases j - i,
{
    if i < j {
        lemma_digits_value_grows(s, i, j - 1);
        assert(s.subrange(0, j).drop_last() =~= s.subrange(0, j - 1));
    }
}

/// The characters of `s`, in order.
pub fn char_vec(s: &str) -> (r: Vec<char>)
    ensures
        r@ == s@,
{
    let mut r: Vec<char> = Vec::new();
    for c in it: s.chars()
        invariant
            it.seq() == s@,
            r@ == it.seq().take(it.index() as int),
    {
        r.push(c);
    }
    r
}

/// The value of the digits `s[lo..hi]`, or `None` where it exceeds `u32::MAX`.
pub(crate) fn digits_u32(s: &Vec<char>, lo: usize, hi: usize) -> (r: Option<u32>)
    requires
        lo <= hi <= s.len(),
        all_digits(s@.subrange(lo as int, hi as int)),
    ensures
        match r {
            Some(v) => v as nat == digits_value(s@.subrange(lo as int, hi as int)),
            None => digits_value(s@.subrange(lo as int, hi as int)) > u32::MAX,
        },
{
    let ghost d = s@.subrange(lo as int, hi as int);
    let mut val: u32 = 0;
    let mut i: usize = lo;
    while i < hi
        invariant
            lo <= i <= hi <= s.len(),
            d == s@.subrange(lo as int, hi as int),
            all_digits(d),
            val as nat == digits_value(d.subrange(0, i - lo)),
        decreases hi - i,
    {
        let ghost k = i - lo;
        assert(is_digit(d[k]));
        assert(d.subrange(0, k + 1).drop_last() =~= d.subrange(0, k));
        let c = s[i];
        let digit: u32 = (c as u32) - ('0' as u32);
        if val > (u32::MAX - digit) / 10 {
            proof {
                lemma_digits_value_grows(d, k + 1, d.len() as int);
                assert(d.subrange(0, d.len() as int) =~= d);
            }
            return None;
        }
        val = val * 10 + digit;
        i = i + 1;
    }
    assert(d.subrange(0, hi - lo) =~= d);
    Some(val)
}

/// Reads the version out of a migration file name (`m_7.sql`, `m_007.sql`).
pub fn file_version(name: &str) -> (r: NameVersion)
    ensures
        r == name_version(name@),
{
    let s = char_vec(name);
    let n = s.len();
    if n < 4 || s[n - 4] != '.' || s[n - 3] != 's' || s[n - 2] != 'q' || s[n - 1] != 'l' {
        proof {
            if n >= 4 {
                let t = s@.subrange(n - 4, n as int);
                if t == seq!['.', 's', 'q', 'l'] {
                    assert(t[0] == '.' && t[1] == 's' && t[2] == 'q' && t[3] == 'l');
                }
            }
        }
        return NameVersion::Ignored;
    }
    assert(s@.subrange(n - 4, n as int) =~= seq!['.', 's', 'q', 'l']);
    let e = n - 4;
    let mut k = e;
    while k > 0 && '0' <= s[k - 1] && s[k - 1] <= '9'
        invariant
            k <= e < s.len(),
            digit_run_start(s@, k as int) == digit_run_start(s@, e as int),
            forall|j: int| k <= j < e ==> is_digit(#[trigger] s@[j]),
        decreases k,
    {
        k = k - 1;
    }
    if k < 2 || k == e || s[k - 2] != 'm' || s[k - 1] != '_' {
        return NameVersion::Ignored;
    }
    assert(all_digits(s@.subrange(k as int, e as int)));
    match digits_u32(&s, k, e) {
        Some(v) => NameVersion::Version(v),
        None => NameVersion::TooLarge,
    }
}

} // verus!
