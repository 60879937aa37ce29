//! Scanning of character sequences: search, trimming and decimal numbers,
//! all over index ranges of one sequence.
use vstd::prelude::*;

verus! {

/// `pat` occurs in `s` at position `i`.
pub open spec fn matches_at(s: Seq<char>, pat: Seq<char>, i: int) -> bool {
    0 <= i && i + pat.len() <= s.len() && s.subrange(i, i + pat.len()) == pat
}

/// First position at or after `i` where `pat` occurs, or -1.
pub open spec fn find_from(s: Seq<char>, pat: Seq<char>, i: int) -> int
    decreases s.len() + 1 - i,
{
    if i < 0 || i + pat.len() > s.len() {
        -1
    } else if matches_at(s, pat, i) {
        i
    } else {
        find_from(s, pat, i + 1)
    }
}

/// Characters stripped by trimming whitespace: ASCII whitespace only, which
/// is all the downloader's output fields carry.
pub open spec fn is_space(c: char) -> bool {
    c == ' ' || c == '\t' || c == '\n' || c == '\r' || c == '\x0b' || c == '\x0c'
}

/// Characters stripped: whitespace when `quotes` is false, `"` when it is true.
pub open spec fn strippable(c: char, quotes: bool) -> bool {
    if quotes {
        c == '"'
    } else {
        is_space(c)
    }
}

/// Start of the range `[i, hi)` once leading strippable characters are skipped.
pub open spec fn skip_lead(s: Seq<char>, quotes: bool, i: int, hi: int) -> int
    decreases hi - i,
{
    if i < hi && 0 <= i < s.len() && strippable(s[i], quotes) {
        skip_lead(s, quotes, i + 1, hi)
    } else {
        i
    }
}

/// End of the range `[lo, j)` once trailing strippable characters are dropped.
pub open spec fn skip_trail(s: Seq<char>, quotes: bool, lo: int, j: int) -> int
    decreases j - lo,
{
    if lo < j && 0 < j <= s.len() && strippable(s[j - 1], quotes) {
        skip_trail(s, quotes, lo, j - 1)
    } else {
        j
    }
}

pub open spec fn is_digit(c: char) -> bool {
    '0' <= c <= '9'
}

pub open spec fn all_digits(s: Seq<char>, lo: int, hi: int) -> bool {
    forall|k: int| lo <= k < hi ==> is_digit(#[trigger] s[k])
}

/// Value of the decimal digits in `[lo, hi)`.
pub open spec fn digits_value(s: Seq<char>, lo: int, hi: int) -> nat
    decreases hi - lo,
{
    if hi <= lo {
        0
    } else {
        digits_value(s, lo, hi - 1) * 10 + (s[hi - 1] as nat - '0' as nat) as nat
    }
}

/// `[lo, hi)` is a non-empty run of digits whose value fits in 64 bits; no
/// sign is accepted, not even `+`.
pub open spec fn uint_of(s: Seq<char>, lo: int, hi: int) -> Option<u64> {
    if lo < hi && all_digits(s, lo, hi) && digits_value(s, lo, hi) <= u64::MAX {
        Some(digits_value(s, lo, hi) as u64)
    } else {
        None
    }
}

/// End of the run of digits that starts at `i` and stays below `hi`.
pub open spec fn digit_run(s: Seq<char>, i: int, hi: int) -> int
    decreases hi - i,
{
    if i < hi && 0 <= i < s.len() && is_digit(s[i]) {
        digit_run(s, i + 1, hi)
    } else {
        i
    }
}

/// A decimal `ddd`, `ddd.ddd`, `.ddd` or `ddd.` in `[lo, hi)`, read down to
/// its integer part; `None` when the text is no such number or that part
/// does not fit in 64 bits.
pub open spec fn decimal_floor_of(s: Seq<char>, lo: int, hi: int) -> Option<u64> {
    let d = digit_run(s, lo, hi);
    let well_formed = if d == hi {
        lo < hi
    } else {
        s[d] == '.' && digit_run(s, d + 1, hi) == hi && (lo < d || d + 1 < hi)
    };
    if well_formed && digits_value(s, lo, d) <= u64::MAX {
        Some(digits_value(s, lo, d) as u64)
    } else {
        None
    }
}

/// The characters of `s`, one by one.
pub fn chars_of(s: &str) -> (r: Vec<char>)
    ensures
        r@ == s@,
{
    let n = s.unicode_len();
    let mut r: Vec<char> = Vec::new();
    let mut i: usize = 0;
    while i < n
        invariant
            n == s@.len(),
            i <= n,
            r@ == s@.subrange(0, i as int),
        decreases n - i,
    {
        r.push(s.get_char(i));
        i = i + 1;
    }
    proof {
        assert(r@ =~= s@);
    }
    r
}

/// Whether `pat` occurs in `s` at `i`.
pub fn occurs_at(s: &Vec<char>, pat: &Vec<char>, i: usize) -> (r: bool)
    ensures
        r == matches_at(s@, pat@, i as int),
{
    if pat.len() > s.len() || i > s.len() - pat.len() {
        return false;
    }
    let mut k: usize = 0;
    while k < pat.len()
        invariant
            i + pat@.len() <= s@.len(),
            k <= pat@.len(),
            forall|m: int| 0 <= m < k ==> s@[i + m] == pat@[m],
        decreases pat@.len() - k,
    {
        let n = s.len();
        assert(i + k < n);
        if s[i + k] != pat[k] {
            proof {
                assert(s@.subrange(i as int, i + pat@.len())[k as int] != pat@[k as int]);
            }
            return false;
        }
        k = k + 1;
    }
    proof {
        assert(s@.subrange(i as int, i + pat@.len()) =~= pat@);
    }
    true
}

/// First occurrence of `pat` in `s` at or after `from`.
pub fn find(s: &Vec<char>, pat: &Vec<char>, from: usize) -> (r: Option<usize>)
    ensures
        match r {
            Some(i) => i as int == find_from(s@, pat@, from as int) && from <= i && i + pat@.len()
                <= s@.len(),
            None => find_from(s@, pat@, from as int) < 0,
        },
{
    if pat.len() > s.len() {
        return None;
    }
    let last = s.len() - pat.len();
    let mut i = from;
    while i <= last
        invariant
            last == s@.len() - pat@.len(),
            from <= i,
            find_from(s@, pat@, from as int) == find_from(s@, pat@, i as int),
        decreases last + 1 - i,
    {
        if occurs_at(s, pat, i) {
            return Some(i);
        }
        if i == last {
            assert(find_from(s@, pat@, i + 1) == -1);
            return None;
        }
        i = i + 1;
    }
    None
}

/// The range `[lo, hi)` with leading and then trailing strippable
/// characters removed.
pub fn strip_range(s: &Vec<char>, quotes: bool, lo: usize, hi: usize) -> (r: (usize, usize))
    requires
        lo <= hi <= s@.len(),
    ensures
        r.0 == skip_lead(s@, quotes, lo as int, hi as int),
        r.1 == skip_trail(s@, quotes, r.0 as int, hi as int),
        lo <= r.0 <= r.1 <= hi,
{
    let mut a = lo;
    while a < hi && strip_char(s[a], quotes)
        invariant
            lo <= a <= hi <= s@.len(),
            skip_lead(s@, quotes, lo as int, hi as int) == skip_lead(s@, quotes, a as int, hi as int),
        decreases hi - a,
    {
        a = a + 1;
    }
    let mut b = hi;
    while b > a && strip_char(s[b - 1], quotes)
        invariant
            a <= b <= hi <= s@.len(),
            skip_trail(s@, quotes, a as int, hi as int) == skip_trail(s@, quotes, a as int, b as int),
        decreases b - a,
    {
        b = b - 1;
    }
    (a, b)
}

fn strip_char(c: char, quotes: bool) -> (r: bool)
    ensures
        r == strippable(c, quotes),
{
    if quotes {
        c == '"'
    } else {
        c == ' ' || c == '\t' || c == '\n' || c == '\r' || c == '\x0b' || c == '\x0c'
    }
}

proof fn lemma_digits_value_grows(s: Seq<char>, lo: int, j: int, hi: int)
    requires
        lo <= j <= hi,
    ensures
        digits_value(s, lo, j) <= digits_value(s, lo, hi),
    decreases hi - j,
{
    if j < hi {
        lemma_digits_value_grows(s, lo, j, hi - 1);
    }
}

/// The value of the digits in `[lo, hi)`, or `None` if it exceeds 64 bits.
fn digits_to_u64(s: &Vec<char>, lo: usize, hi: usize) -> (r: Option<u64>)
    requires
        lo <= hi <= s@.len(),
        all_digits(s@, lo as int, hi as int),
    ensures
        r == (if digits_value(s@, lo as int, hi as int) <= u64::MAX {
            Some(digits_value(s@, lo as int, hi as int) as u64)
        } else {
            None
        }),
{
    let mut v: u64 = 0;
    let mut i = lo;
    while i < hi
        invariant
            lo <= i <= hi <= s@.len(),
            all_digits(s@, lo as int, hi as int),
            v == digits_value(s@, lo as int, i as int),
        decreases hi - i,
    {
        let d = (s[i] as u32 - '0' as u32) as u64;
        assert(is_digit(s@[i as int]));
        if v > (u64::MAX - d) / 10 {
            proof {
                assert(digits_value(s@, lo as int, i + 1) == v * 10 + d);
                assert(v * 10 + d > u64::MAX) by (nonlinear_arith)
                    requires
                        v > (u64::MAX - d) / 10,
                        d <= 9,
                ;
                lemma_digits_value_grows(s@, lo as int, i + 1, hi as int);
            }
            return None;
        }
        proof {
            assert(v * 10 + d <= u64::MAX) by (nonlinear_arith)
                requires
                    v <= (u64::MAX - d) / 10,
                    d <= 9,
            ;
        }
        v = v * 10 + d;
        i = i + 1;
    }
    Some(v)
}

/// End of the run of digits starting at `i`, bounded by `hi`.
fn digit_run_end(s: &Vec<char>, i: usize, hi: usize) -> (r: usize)
    requires
        i <= hi <= s@.len(),
    ensures
        r == digit_run(s@, i as int, hi as int),
        i <= r <= hi,
        all_digits(s@, i as int, r as int),
        r < hi ==> !is_digit(s@[r as int]),
{
    let mut j = i;
    while j < hi && '0' <= s[j] && s[j] <= '9'
        invariant
            i <= j <= hi <= s@.len(),
            digit_run(s@, i as int, hi as int) == digit_run(s@, j as int, hi as int),
            all_digits(s@, i as int, j as int),
        decreases hi - j,
    {
        j = j + 1;
    }
    j
}

/// Unsigned integer in `[lo, hi)`: digits only, at most 64 bits.
pub fn parse_uint(s: &Vec<char>, lo: usize, hi: usize) -> (r: Option<u64>)
    requires
        lo <= hi <= s@.len(),
    ensures
        r == uint_of(s@, lo as int, hi as int),
{
    let d = digit_run_end(s, lo, hi);
    if lo == hi || d != hi {
        proof {
            if d != hi {
                assert(!is_digit(s@[d as int]));
            }
        }
        return None;
    }
    digits_to_u64(s, lo, hi)
}

/// Decimal number in `[lo, hi)` read down to its integer part.
pub fn parse_decimal_floor(s: &Vec<char>, lo: usize, hi: usize) -> (r: Option<u64>)
    requires
        lo <= hi <= s@.len(),
    ensures
        r == decimal_floor_of(s@, lo as int, hi as int),
{
    let d = digit_run_end(s, lo, hi);
    let well_formed = if d == hi {
        lo < hi
    } else {
        let e = digit_run_end(s, d + 1, hi);
        s[d] == '.' && e == hi && (lo < d || d + 1 < hi)
    };
    if !well_formed {
        return None;
    }
    digits_to_u64(s, lo, d)
}

} // verus!
