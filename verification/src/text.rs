//! Character-sequence utilities: conversions between strings and character
//! vectors, substring search, trimming, and exact numeric parsing.
//!
//! The source documents are scanned as sequences of characters; every scanner
//! here carries a contract that pins down exactly which positions match and
//! which value is parsed.

use vstd::prelude::*;

verus! {

/// Relies on str::chars: yields exactly the characters of the string, in
/// order, which is the string's view.
#[verifier::external_body]
pub fn str_to_chars(s: &str) -> (r: Vec<char>)
    ensures
        r@ == s@,
{
    s.chars().collect()
}

/// Relies on String::from_iter over char: builds the string whose characters
/// are exactly the ones yielded, in order.
#[verifier::external_body]
pub fn chars_to_string(v: &Vec<char>) -> (r: String)
    ensures
        r@ == v@,
{
    v.iter().collect()
}

/// The pattern occurs in `hay` starting at position `i`.
pub open spec fn match_at(hay: Seq<char>, pat: Seq<char>, i: int) -> bool {
    &&& 0 <= i
    &&& i + pat.len() <= hay.len()
    &&& hay.subrange(i, i + pat.len() as int) == pat
}

/// Finds the first occurrence of `pat` at or after `from`.
pub fn find_from(hay: &Vec<char>, pat: &Vec<char>, from: usize) -> (r: Option<usize>)
    requires
        from <= hay@.len(),
        1 <= pat@.len(),
    ensures
        hay@.len() <= usize::MAX,
        match r {
            Some(i) => {
                &&& from <= i
                &&& match_at(hay@, pat@, i as int)
                &&& forall|j: int| from <= j < i ==> !match_at(hay@, pat@, j)
                &&& spec_find_at(hay@, pat@, from as int) == Some(i as int)
            },
            None => (forall|j: int| from <= j ==> !match_at(hay@, pat@, j))
                && spec_find_at(hay@, pat@, from as int) is None,
        },
{
    let total = hay.len();
    if pat.len() > total {
        proof {
            lemma_find_at_props(hay@, pat@, from as int);
        }
        return None;
    }
    let bound: usize = hay.len() - pat.len();
    let mut i: usize = from;
    while i <= bound
        invariant
            from <= i,
            i <= hay@.len(),
            pat@.len() >= 1,
            hay@.len() <= usize::MAX,
            bound == hay@.len() - pat@.len(),
            forall|j: int| from <= j < i ==> !match_at(hay@, pat@, j),
        decreases hay@.len() - i,
    {
        let mut k: usize = 0;
        let mut ok: bool = true;
        while k < pat.len()
            invariant
                0 <= k <= pat@.len(),
                hay@.len() <= usize::MAX,
                i + pat@.len() <= hay@.len(),
                ok <==> (forall|m: int| 0 <= m < k ==> hay@[i + m] == pat@[m]),
            decreases pat@.len() - k,
        {
            if hay[i + k] != pat[k] {
                ok = false;
                k = pat.len();
            } else {
                k = k + 1;
            }
        }
        if ok {
            proof {
                assert(hay@.subrange(i as int, i + pat@.len() as int) =~= pat@);
                lemma_find_at_props(hay@, pat@, from as int);
            }
            return Some(i);
        }
        proof {
            if match_at(hay@, pat@, i as int) {
                assert(forall|m: int|
                    0 <= m < pat@.len() ==> hay@.subrange(i as int, i + pat@.len() as int)[m]
                        == #[trigger] hay@[i + m]);
                assert(false);
            }
        }
        i = i + 1;
    }
    proof {
        lemma_find_at_props(hay@, pat@, from as int);
    }
    None
}

/// Copies the half-open range `[start, end)`.
pub fn copy_range(v: &Vec<char>, start: usize, end: usize) -> (r: Vec<char>)
    requires
        start <= end <= v@.len(),
    ensures
        r@ == v@.subrange(start as int, end as int),
{
    let mut r: Vec<char> = Vec::new();
    let mut i: usize = start;
    while i < end
        invariant
            start <= i <= end <= v@.len(),
            r@ == v@.subrange(start as int, i as int),
        decreases end - i,
    {
        r.push(v[i]);
        proof {
            assert(r@ =~= v@.subrange(start as int, i + 1));
        }
        i = i + 1;
    }
    r
}

/// A whitespace character, as Unicode defines the White_Space property.
pub open spec fn is_space(c: char) -> bool {
    ||| c == ' '
    ||| c == '\t'
    ||| c == '\n'
    ||| c == '\u{b}'
    ||| c == '\u{c}'
    ||| c == '\r'
    ||| c == '\u{85}'
    ||| c == '\u{a0}'
    ||| c == '\u{1680}'
    ||| ('\u{2000}' <= c && c <= '\u{200a}')
    ||| c == '\u{2028}'
    ||| c == '\u{2029}'
    ||| c == '\u{202f}'
    ||| c == '\u{205f}'
    ||| c == '\u{3000}'
}

pub fn char_is_space(c: char) -> (b: bool)
    ensures
        b == is_space(c),
{
    c == ' ' || c == '\t' || c == '\n' || c == '\u{b}' || c == '\u{c}' || c == '\r'
        || c == '\u{85}' || c == '\u{a0}' || c == '\u{1680}'
        || ('\u{2000}' <= c && c <= '\u{200a}') || c == '\u{2028}' || c == '\u{2029}'
        || c == '\u{202f}' || c == '\u{205f}' || c == '\u{3000}'
}

/// The trimmed sub-range of `s`: everything outside it is whitespace, and a
/// non-empty trimmed range starts and ends with non-whitespace.
pub open spec fn is_trim_range(s: Seq<char>, start: int, end: int) -> bool {
    &&& 0 <= start <= end <= s.len()
    &&& forall|j: int| 0 <= j < start ==> is_space(#[trigger] s[j])
    &&& forall|j: int| end <= j < s.len() ==> is_space(#[trigger] s[j])
    &&& start < end ==> !is_space(s[start]) && !is_space(s[end - 1])
}

/// Computes the range left after trimming whitespace from both ends.
pub fn trim_range(v: &Vec<char>) -> (r: (usize, usize))
    ensures
        is_trim_range(v@, r.0 as int, r.1 as int),
{
    let mut start: usize = 0;
    while start < v.len() && char_is_space(v[start])
        invariant
            0 <= start <= v@.len(),
            forall|j: int| 0 <= j < start ==> is_space(#[trigger] v@[j]),
        decreases v@.len() - start,
    {
        start = start + 1;
    }
    if start == v.len() {
        return (start, start);
    }
    let mut end: usize = v.len();
    while end > start && char_is_space(v[end - 1])
        invariant
            start <= end <= v@.len(),
            start < v@.len(),
            !is_space(v@[start as int]),
            forall|j: int| end <= j < v@.len() ==> is_space(#[trigger] v@[j]),
        decreases end,
    {
        end = end - 1;
    }
    (start, end)
}

/// The number of leading whitespace characters.
pub open spec fn spec_lead_spaces(s: Seq<char>) -> int
    decreases s.len(),
{
    if s.len() == 0 || !is_space(s[0]) {
        0
    } else {
        1 + spec_lead_spaces(s.drop_first())
    }
}

/// The length of `s` with its trailing whitespace dropped.
pub open spec fn spec_trail_end(s: Seq<char>) -> int
    decreases s.len(),
{
    if s.len() == 0 || !is_space(s.last()) {
        s.len() as int
    } else {
        spec_trail_end(s.drop_last())
    }
}

/// `s` with whitespace removed from both ends.
pub open spec fn spec_trimmed(s: Seq<char>) -> Seq<char> {
    if spec_lead_spaces(s) >= spec_trail_end(s) {
        Seq::empty()
    } else {
        s.subrange(spec_lead_spaces(s), spec_trail_end(s))
    }
}

pub proof fn lemma_lead_spaces(s: Seq<char>)
    ensures
        0 <= spec_lead_spaces(s) <= s.len(),
        forall|j: int| 0 <= j < spec_lead_spaces(s) ==> is_space(#[trigger] s[j]),
        spec_lead_spaces(s) < s.len() ==> !is_space(s[spec_lead_spaces(s)]),
    decreases s.len(),
{
    if s.len() > 0 && is_space(s[0]) {
        lemma_lead_spaces(s.drop_first());
        assert(forall|j: int|
            1 <= j < spec_lead_spaces(s) ==> #[trigger] s[j] == s.drop_first()[j - 1]);
    }
}

pub proof fn lemma_trail_end(s: Seq<char>)
    ensures
        0 <= spec_trail_end(s) <= s.len(),
        forall|j: int| spec_trail_end(s) <= j < s.len() ==> is_space(#[trigger] s[j]),
        spec_trail_end(s) > 0 ==> !is_space(s[spec_trail_end(s) - 1]),
    decreases s.len(),
{
    if s.len() > 0 && is_space(s.last()) {
        lemma_trail_end(s.drop_last());
        assert(forall|j: int|
            0 <= j < s.len() - 1 ==> #[trigger] s[j] == s.drop_last()[j]);
    }
}

/// A trim range matching the deterministic spec: the range left after
/// dropping leading and trailing whitespace.
pub proof fn lemma_trim_range_unique(s: Seq<char>, start: int, end: int)
    requires
        is_trim_range(s, start, end),
    ensures
        s.subrange(start, end) == spec_trimmed(s),
{
    lemma_lead_spaces(s);
    lemma_trail_end(s);
    let a = spec_lead_spaces(s);
    let b = spec_trail_end(s);
    if start == end {
        assert(forall|j: int| 0 <= j < s.len() ==> is_space(#[trigger] s[j]));
        if a < b {
            assert(!is_space(s[a]));
        }
        assert(s.subrange(start, end) =~= Seq::<char>::empty());
    } else {
        assert(!is_space(s[start]) && !is_space(s[end - 1]));
        assert(start == a) by {
            if start < a {
                assert(is_space(s[start]));
            }
            if a < start {
                assert(!is_space(s[a]));
            }
        }
        assert(end == b) by {
            if end < b {
                assert(!is_space(s[b - 1]));
                assert(b - 1 >= end);
            }
            if b < end {
                assert(is_space(s[end - 1]));
            }
        }
    }
}

/// Trims whitespace from both ends.
pub fn trim(v: &Vec<char>) -> (r: Vec<char>)
    ensures
        r@ == spec_trimmed(v@),
{
    let (a, b) = trim_range(v);
    let r = copy_range(v, a, b);
    proof {
        lemma_trim_range_unique(v@, a as int, b as int);
    }
    r
}

pub open spec fn is_digit(c: char) -> bool {
    '0' <= c && c <= '9'
}

pub open spec fn digit_val(c: char) -> int {
    c as int - '0' as int
}

pub open spec fn all_digits(s: Seq<char>) -> bool {
    forall|i: int| 0 <= i < s.len() ==> is_digit(#[trigger] s[i])
}

/// The number denoted by a sequence of decimal digits.
pub open spec fn digits_value(s: Seq<char>) -> int
    decreases s.len(),
{
    if s.len() == 0 {
        0
    } else {
        digits_value(s.drop_last()) * 10 + digit_val(s.last())
    }
}

pub proof fn lemma_digits_value_nonneg(s: Seq<char>)
    requires
        all_digits(s),
    ensures
        digits_value(s) >= 0,
    decreases s.len(),
{
    if s.len() > 0 {
        assert(all_digits(s.drop_last()));
        lemma_digits_value_nonneg(s.drop_last());
    }
}

/// Extending a digit string to the right never decreases its value.
pub proof fn lemma_digits_value_prefix_le(s: Seq<char>, i: int, j: int)
    requires
        all_digits(s),
        0 <= i <= j <= s.len(),
    ensures
        digits_value(s.subrange(0, i)) <= digits_value(s.subrange(0, j)),
    decreases j - i,
{
    if i < j {
        lemma_digits_value_prefix_le(s, i, j - 1);
        let p = s.subrange(0, j - 1);
        let q = s.subrange(0, j);
        assert(q.drop_last() =~= p);
        assert(all_digits(p));
        lemma_digits_value_nonneg(p);
    }
}

/// The exact decimal value of a non-empty all-digit string, when it fits.
pub open spec fn spec_parse_u32(s: Seq<char>) -> Option<u32> {
    if s.len() >= 1 && all_digits(s) && digits_value(s) <= u32::MAX {
        Some(digits_value(s) as u32)
    } else {
        None
    }
}

/// Parses a non-negative decimal integer; rejects anything else.
pub fn parse_u32(v: &Vec<char>) -> (r: Option<u32>)
    ensures
        r == spec_parse_u32(v@),
{
    if v.len() == 0 {
        return None;
    }
    let mut acc: u64 = 0;
    let mut i: usize = 0;
    while i < v.len()
        invariant
            0 <= i <= v@.len(),
            v@.len() >= 1,
            forall|j: int| 0 <= j < i ==> is_digit(#[trigger] v@[j]),
            acc == digits_value(v@.subrange(0, i as int)),
            acc <= u32::MAX,
        decreases v@.len() - i,
    {
        let c = v[i];
        if !('0' <= c && c <= '9') {
            return None;
        }
        let d: u64 = (c as u32 as u64) - ('0' as u32 as u64);
        proof {
            assert(v@.subrange(0, i + 1).drop_last() =~= v@.subrange(0, i as int));
        }
        let next: u64 = acc * 10 + d;
        if next > u32::MAX as u64 {
            proof {
                let w = v@;
                assert(forall|j: int| 0 <= j < i + 1 ==> is_digit(#[trigger] w[j]));
                if all_digits(w) && digits_value(w) <= u32::MAX {
                    lemma_digits_value_prefix_le(w, i + 1, w.len() as int);
                    assert(w.subrange(0, w.len() as int) =~= w);
                }
            }
            return None;
        }
        acc = next;
        i = i + 1;
    }
    proof {
        assert(v@.subrange(0, v@.len() as int) =~= v@);
    }
    Some(acc as u32)
}

/// The first position of `c` in `s` at or after `i`; the length when absent.
pub open spec fn first_at(s: Seq<char>, c: char, i: int) -> int
    decreases s.len() - i,
{
    if i < 0 || i >= s.len() {
        s.len() as int
    } else if s[i] == c {
        i
    } else {
        first_at(s, c, i + 1)
    }
}

pub proof fn lemma_first_at_props(s: Seq<char>, c: char, i: int)
    requires
        0 <= i <= s.len(),
    ensures
        i <= first_at(s, c, i) <= s.len(),
        first_at(s, c, i) < s.len() ==> s[first_at(s, c, i)] == c,
        forall|j: int| i <= j < first_at(s, c, i) ==> s[j] != c,
    decreases s.len() - i,
{
    if i < s.len() && s[i] != c {
        lemma_first_at_props(s, c, i + 1);
    }
}

/// Finds the first occurrence of a single character.
pub fn find_char(v: &Vec<char>, c: char) -> (r: usize)
    ensures
        r == first_at(v@, c, 0),
{
    let mut i: usize = 0;
    while i < v.len()
        invariant
            0 <= i <= v@.len(),
            first_at(v@, c, 0) == first_at(v@, c, i as int),
        decreases v@.len() - i,
    {
        if v[i] == c {
            return i;
        }
        i = i + 1;
    }
    i
}

/// 10 raised to a small power.
pub open spec fn pow10(k: int) -> int
    decreases k,
{
    if k <= 0 {
        1
    } else {
        10 * pow10(k - 1)
    }
}

/// A duration in seconds written as `digits` or `digits.digits` (at most
/// three fractional digits), as an exact count of milliseconds.
pub open spec fn spec_parse_ms(s: Seq<char>) -> Option<u64> {
    let p = first_at(s, '.', 0);
    if p == s.len() {
        match spec_parse_u32(s) {
            Some(w) => Some((w * 1000) as u64),
            None => None,
        }
    } else {
        let whole = s.subrange(0, p);
        let frac = s.subrange(p + 1, s.len() as int);
        if frac.len() <= 3 && frac.len() >= 1 && all_digits(frac) {
            match spec_parse_u32(whole) {
                Some(w) => Some(
                    (w * 1000 + digits_value(frac) * pow10(3 - frac.len())) as u64,
                ),
                None => None,
            }
        } else {
            None
        }
    }
}

/// Parses a decimal duration in seconds into milliseconds, exactly.
pub fn parse_ms(v: &Vec<char>) -> (r: Option<u64>)
    ensures
        r == spec_parse_ms(v@),
{
    let p = find_char(v, '.');
    proof {
        lemma_first_at_props(v@, '.', 0);
    }
    if p == v.len() {
        match parse_u32(v) {
            Some(w) => Some((w as u64) * 1000),
            None => None,
        }
    } else {
        let whole = copy_range(v, 0, p);
        let frac = copy_range(v, p + 1, v.len());
        if frac.len() >= 1 && frac.len() <= 3 {
            let frac_ok = all_digits_exec(&frac);
            if !frac_ok {
                return None;
            }
            match parse_u32(&whole) {
                Some(w) => {
                    let scale: u64 = if frac.len() == 1 {
                        100
                    } else if frac.len() == 2 {
                        10
                    } else {
                        1
                    };
                    proof {
                        lemma_digits_value_nonneg(frac@);
                        lemma_digits_value_small(frac@);
                        assert(pow10(0) == 1);
                        assert(pow10(1) == 10);
                        assert(pow10(2) == 100);
                        assert(pow10(3) == 1000);
                    }
                    let fv = parse_u32(&frac);
                    let f: u64 = match fv {
                        Some(f) => f as u64,
                        None => 0,
                    };
                    proof {
                        assert(scale == pow10(3 - frac@.len()));
                        assert(f < 1000);
                        assert(f * scale <= 1000 * 100) by (nonlinear_arith)
                            requires
                                0 <= f < 1000,
                                0 <= scale <= 100,
                        ;
                    }
                    Some((w as u64) * 1000 + f * scale)
                },
                None => None,
            }
        } else {
            None
        }
    }
}

/// A digit string of length at most 3 denotes a value below 1000.
pub proof fn lemma_digits_value_small(s: Seq<char>)
    requires
        all_digits(s),
        s.len() <= 3,
    ensures
        digits_value(s) < pow10(s.len() as int),
    decreases s.len(),
{
    if s.len() > 0 {
        assert(all_digits(s.drop_last()));
        lemma_digits_value_small(s.drop_last());
    }
}

pub fn all_digits_exec(v: &Vec<char>) -> (b: bool)
    ensures
        b == all_digits(v@),
{
    let mut i: usize = 0;
    while i < v.len()
        invariant
            0 <= i <= v@.len(),
            forall|j: int| 0 <= j < i ==> is_digit(#[trigger] v@[j]),
        decreases v@.len() - i,
    {
        let c = v[i];
        if !('0' <= c && c <= '9') {
            return false;
        }
        i = i + 1;
    }
    true
}


/// The first position at or after `from` where `pat` occurs.
pub open spec fn spec_find_at(hay: Seq<char>, pat: Seq<char>, from: int) -> Option<int>
    decreases hay.len() - from,
{
    if pat.len() < 1 || from < 0 || from + pat.len() > hay.len() {
        None
    } else if match_at(hay, pat, from) {
        Some(from)
    } else {
        spec_find_at(hay, pat, from + 1)
    }
}

pub proof fn lemma_find_at_props(hay: Seq<char>, pat: Seq<char>, from: int)
    requires
        0 <= from,
        1 <= pat.len(),
    ensures
        match spec_find_at(hay, pat, from) {
            Some(i) => from <= i && match_at(hay, pat, i) && forall|j: int|
                from <= j < i ==> !match_at(hay, pat, j),
            None => forall|j: int| from <= j ==> !match_at(hay, pat, j),
        },
    decreases hay.len() - from,
{
    if from + pat.len() > hay.len() {
    } else if match_at(hay, pat, from) {
    } else {
        lemma_find_at_props(hay, pat, from + 1);
    }
}

/// Finds the first occurrence at or after `from`, as an index pair wrapper
/// usable where only the deterministic position is needed.
pub fn find_pat(hay: &Vec<char>, pat: &str, from: usize) -> (r: Option<usize>)
    requires
        from <= hay@.len(),
        1 <= pat@.len(),
    ensures
        match r {
            Some(i) => spec_find_at(hay@, pat@, from as int) == Some(i as int) && i + pat@.len()
                <= hay@.len() && from <= i,
            None => spec_find_at(hay@, pat@, from as int) is None,
        },
{
    let p = str_to_chars(pat);
    find_from(hay, &p, from)
}


/// Whether `pat` occurs in `v` exactly at position `p`.
pub fn starts_with_at(v: &Vec<char>, pat: &Vec<char>, p: usize) -> (b: bool)
    requires
        p <= v@.len(),
    ensures
        b == match_at(v@, pat@, p as int),
{
    if pat.len() > v.len() - p {
        proof {
            if match_at(v@, pat@, p as int) {
                assert(false);
            }
        }
        return false;
    }
    let mut k: usize = 0;
    while k < pat.len()
        invariant
            0 <= k <= pat@.len(),
            v@.len() <= usize::MAX,
            p + pat@.len() <= v@.len(),
            forall|m: int| 0 <= m < k ==> v@[p + m] == pat@[m],
        decreases pat@.len() - k,
    {
        if v[p + k] != pat[k] {
            proof {
                if match_at(v@, pat@, p as int) {
                    assert(forall|m: int|
                        0 <= m < pat@.len() ==> v@.subrange(p as int, p + pat@.len() as int)[m]
                            == #[trigger] v@[p + m]);
                    assert(false);
                }
            }
            return false;
        }
        k = k + 1;
    }
    proof {
        assert(v@.subrange(p as int, p + pat@.len() as int) =~= pat@);
    }
    true
}

} // verus!
