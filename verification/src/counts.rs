//! Demand kinds and the tabular text forms they travel in: a demand is
//! either a desired throughput per minute or a fixed facility count, and a
//! resolution is either "produce via a method with a count" or "import".

use vstd::prelude::*;
use crate::rates::{Rate, rate_reduce, spec_rate_reduce};
use crate::text::{
    chars_to_string, copy_range, first_at, lemma_first_at_props, spec_parse_ms, spec_parse_u32, parse_ms, parse_u32, str_to_chars,
};

verus! {

/// One demand: a throughput per minute, or a whole number of facilities.
#[derive(Debug, Clone, Copy, PartialEq, Eq, Structural)]
pub enum CountsInput {
    WaresPerMinute(Rate),
    Fabrics(usize),
}

/// One resolution: produce via a method with a facility count, or import.
#[derive(Debug, Clone, PartialEq, Eq)]
pub enum CountsOutput {
    Produce(String, usize),
    Import,
}

pub enum CountsOutputV {
    Produce(Seq<char>, usize),
    Import,
}

impl View for CountsOutput {
    type V = CountsOutputV;

    open spec fn view(&self) -> CountsOutputV {
        match self {
            CountsOutput::Produce(m, c) => CountsOutputV::Produce(m@, *c),
            CountsOutput::Import => CountsOutputV::Import,
        }
    }
}

/// The decimal digits of a number, most significant first.
pub open spec fn spec_dec(n: int) -> Seq<char>
    decreases n,
{
    if n < 0 {
        Seq::empty()
    } else if n < 10 {
        seq![spec_digit_char(n)]
    } else {
        spec_dec(n / 10) + seq![spec_digit_char(n % 10)]
    }
}

pub open spec fn spec_digit_char(d: int) -> char {
    if d == 0 {
        '0'
    } else if d == 1 {
        '1'
    } else if d == 2 {
        '2'
    } else if d == 3 {
        '3'
    } else if d == 4 {
        '4'
    } else if d == 5 {
        '5'
    } else if d == 6 {
        '6'
    } else if d == 7 {
        '7'
    } else if d == 8 {
        '8'
    } else {
        '9'
    }
}

fn digit_char(d: u64) -> (c: char)
    requires
        d < 10,
    ensures
        c == spec_digit_char(d as int),
{
    if d == 0 {
        '0'
    } else if d == 1 {
        '1'
    } else if d == 2 {
        '2'
    } else if d == 3 {
        '3'
    } else if d == 4 {
        '4'
    } else if d == 5 {
        '5'
    } else if d == 6 {
        '6'
    } else if d == 7 {
        '7'
    } else if d == 8 {
        '8'
    } else {
        '9'
    }
}

/// Writes a number in decimal.
pub fn format_u64(n: u64) -> (r: Vec<char>)
    ensures
        r@ == spec_dec(n as int),
    decreases n,
{
    if n < 10 {
        let mut r: Vec<char> = Vec::new();
        r.push(digit_char(n));
        proof {
            assert(r@ =~= seq![spec_digit_char(n as int)]);
        }
        r
    } else {
        let mut r = format_u64(n / 10);
        r.push(digit_char(n % 10));
        proof {
            assert(r@ =~= spec_dec(n as int / 10) + seq![spec_digit_char(n as int % 10)]);
        }
        r
    }
}

/// The text form of one resolution.
pub open spec fn spec_format_counts_output(c: CountsOutputV) -> Seq<char> {
    match c {
        CountsOutputV::Produce(m, n) => "Produce("@ + m + ", "@ + spec_dec(n as int) + ")"@,
        CountsOutputV::Import => "Import"@,
    }
}

/// Writes a resolution in its text form.
pub fn format_counts_output(c: &CountsOutput) -> (r: String)
    ensures
        r@ == spec_format_counts_output(c@),
{
    match c {
        CountsOutput::Import => "Import".to_owned(),
        CountsOutput::Produce(m, n) => {
            let mut out = str_to_chars("Produce(");
            let mchars = str_to_chars(m.as_str());
            append_chars(&mut out, &mchars);
            let sep = str_to_chars(", ");
            append_chars(&mut out, &sep);
            let digits = format_u64(*n as u64);
            append_chars(&mut out, &digits);
            let close = str_to_chars(")");
            append_chars(&mut out, &close);
            proof {
                assert(out@ =~= spec_format_counts_output(c@));
            }
            chars_to_string(&out)
        },
    }
}

fn append_chars(out: &mut Vec<char>, add: &Vec<char>)
    ensures
        final(out)@ == old(out)@ + add@,
{
    let ghost pre = out@;
    let mut t: usize = 0;
    while t < add.len()
        invariant
            0 <= t <= add@.len(),
            out@ == pre + add@.subrange(0, t as int),
        decreases add@.len() - t,
    {
        out.push(add[t]);
        proof {
            assert(out@ =~= pre + add@.subrange(0, t + 1));
        }
        t = t + 1;
    }
    proof {
        assert(add@.subrange(0, add@.len() as int) =~= add@);
    }
}

/// The text form of one demand: a facility count in decimal, or a
/// throughput as numerator and denominator of the exact fraction.
pub open spec fn spec_format_counts_input(c: CountsInput) -> Seq<char> {
    match c {
        CountsInput::Fabrics(n) => "Fabrics("@ + spec_dec(n as int) + ")"@,
        CountsInput::WaresPerMinute(r) => "WaresPerMinute("@ + spec_dec(r.num as int) + "/"@
            + spec_dec(r.den as int) + ")"@,
    }
}

/// Writes a demand in its text form.
pub fn format_counts_input(c: &CountsInput) -> (r: String)
    ensures
        r@ == spec_format_counts_input(*c),
{
    match c {
        CountsInput::Fabrics(n) => {
            let mut out = str_to_chars("Fabrics(");
            let digits = format_u64(*n as u64);
            append_chars(&mut out, &digits);
            let close = str_to_chars(")");
            append_chars(&mut out, &close);
            proof {
                assert(out@ =~= spec_format_counts_input(*c));
            }
            chars_to_string(&out)
        },
        CountsInput::WaresPerMinute(rate) => {
            let mut out = str_to_chars("WaresPerMinute(");
            let num_digits = format_u64(rate.num);
            append_chars(&mut out, &num_digits);
            let slash = str_to_chars("/");
            append_chars(&mut out, &slash);
            let den_digits = format_u64(rate.den);
            append_chars(&mut out, &den_digits);
            let close = str_to_chars(")");
            append_chars(&mut out, &close);
            proof {
                assert(out@ =~= spec_format_counts_input(*c));
            }
            chars_to_string(&out)
        },
    }
}

/// A throughput number: plain digits, a decimal with at most three
/// fractional digits, or an exact `numerator/denominator` fraction.
pub open spec fn spec_parse_rate(s: Seq<char>) -> Option<Rate> {
    let slash = first_at(s, '/', 0);
    if slash == s.len() {
        match spec_parse_ms(s) {
            None => None,
            Some(ms) => spec_rate_reduce(ms as int, 1000),
        }
    } else {
        let num = s.subrange(0, slash);
        let den = s.subrange(slash + 1, s.len() as int);
        match (spec_parse_u32(num), spec_parse_u32(den)) {
            (Some(n), Some(d)) => if d > 0 {
                spec_rate_reduce(n as int, d as int)
            } else {
                None
            },
            _ => None,
        }
    }
}

/// Parses a throughput number into an exact rate.
pub fn parse_rate(v: &Vec<char>) -> (r: Option<Rate>)
    ensures
        r == spec_parse_rate(v@),
{
    let slash = crate::text::find_char(v, '/');
    proof {
        lemma_first_at_props(v@, '/', 0);
    }
    if slash == v.len() {
        match parse_ms(v) {
            None => None,
            Some(ms) => rate_reduce(ms as u128, 1000),
        }
    } else {
        let num = copy_range(v, 0, slash);
        let den = copy_range(v, slash + 1, v.len());
        match (parse_u32(&num), parse_u32(&den)) {
            (Some(n), Some(d)) => {
                if d > 0 {
                    rate_reduce(n as u128, d as u128)
                } else {
                    None
                }
            },
            _ => None,
        }
    }
}

/// The demand denoted by a text form: `WaresPerMinute(number)` or
/// `Fabrics(digits)`, nothing else.
pub open spec fn spec_parse_counts_input(s: Seq<char>) -> Option<CountsInput> {
    if s.len() > "WaresPerMinute("@.len() + 1 && s.subrange(0, "WaresPerMinute("@.len() as int)
        == "WaresPerMinute("@ && s.last() == ')' {
        match spec_parse_rate(
            s.subrange("WaresPerMinute("@.len() as int, s.len() - 1),
        ) {
            None => None,
            Some(r) => Some(CountsInput::WaresPerMinute(r)),
        }
    } else if s.len() > "Fabrics("@.len() + 1 && s.subrange(0, "Fabrics("@.len() as int)
        == "Fabrics("@ && s.last() == ')' {
        match spec_parse_u32(s.subrange("Fabrics("@.len() as int, s.len() - 1)) {
            None => None,
            Some(n) => Some(CountsInput::Fabrics(n as usize)),
        }
    } else {
        None
    }
}

/// Parses a demand from its text form.
pub fn parse_counts_input(input: &str) -> (r: Option<CountsInput>)
    ensures
        r == spec_parse_counts_input(input@),
{
    proof {
        reveal_strlit("WaresPerMinute(");
        reveal_strlit("Fabrics(");
    }
    let v = str_to_chars(input);
    let wpm = str_to_chars("WaresPerMinute(");
    let fab = str_to_chars("Fabrics(");
    if v.len() > wpm.len() + 1 && crate::text::starts_with_at(&v, &wpm, 0) && v[v.len() - 1]
        == ')' {
        proof {
            assert(v@.subrange(0, wpm@.len() as int) == v@.subrange(
                0int,
                wpm@.len() as int,
            ));
        }
        let inner = copy_range(&v, wpm.len(), v.len() - 1);
        match parse_rate(&inner) {
            None => None,
            Some(r) => Some(CountsInput::WaresPerMinute(r)),
        }
    } else if v.len() > fab.len() + 1 && crate::text::starts_with_at(&v, &fab, 0) && v[v.len()
        - 1] == ')' {
        proof {
            assert(v@.subrange(0, fab@.len() as int) == v@.subrange(
                0int,
                fab@.len() as int,
            ));
        }
        let inner = copy_range(&v, fab.len(), v.len() - 1);
        match parse_u32(&inner) {
            None => None,
            Some(n) => Some(CountsInput::Fabrics(n as usize)),
        }
    } else {
        proof {
            if v@.len() > wpm@.len() + 1 && v@.subrange(0, wpm@.len() as int) == wpm@
                && v@.last() == ')' {
                assert(crate::text::match_at(v@, wpm@, 0));
            }
            if v@.len() > fab@.len() + 1 && v@.subrange(0, fab@.len() as int) == fab@
                && v@.last() == ')' {
                assert(crate::text::match_at(v@, fab@, 0));
            }
        }
        None
    }
}

/// The resolution denoted by a text form: `Import`, or `Produce(method,
/// count)` where the method is everything before the first comma and the
/// count follows it immediately in decimal.
pub open spec fn spec_parse_counts_output(s: Seq<char>) -> Option<CountsOutputV> {
    if s == "Import"@ {
        Some(CountsOutputV::Import)
    } else if s.len() > "Produce("@.len() + 1 && s.subrange(0, "Produce("@.len() as int)
        == "Produce("@ && s.last() == ')' {
        let inner = s.subrange("Produce("@.len() as int, s.len() - 1);
        let sep = first_at(inner, ',', 0);
        if sep < inner.len() {
            match spec_parse_u32(inner.subrange(sep + 1, inner.len() as int)) {
                None => None,
                Some(n) => Some(
                    CountsOutputV::Produce(inner.subrange(0, sep), n as usize),
                ),
            }
        } else {
            None
        }
    } else {
        None
    }
}

/// Parses a resolution from its text form.
pub fn parse_counts_output(input: &str) -> (r: Option<CountsOutput>)
    ensures
        match r {
            Some(c) => spec_parse_counts_output(input@) == Some(c@),
            None => spec_parse_counts_output(input@) is None,
        },
{
    proof {
        reveal_strlit("Produce(");
        reveal_strlit("Import");
    }
    let v = str_to_chars(input);
    let imp = str_to_chars("Import");
    if v.len() == imp.len() && crate::text::starts_with_at(&v, &imp, 0) {
        proof {
            assert(v@.subrange(0, v@.len() as int) =~= v@);
        }
        return Some(CountsOutput::Import);
    }
    proof {
        if input@ == "Import"@ {
            assert(v@.subrange(0, imp@.len() as int) =~= imp@);
            assert(crate::text::match_at(v@, imp@, 0));
        }
    }
    let prod = str_to_chars("Produce(");
    if v.len() > prod.len() + 1 && crate::text::starts_with_at(&v, &prod, 0) && v[v.len() - 1]
        == ')' {
        proof {
            assert(v@.subrange(0, prod@.len() as int) == v@.subrange(
                0int,
                prod@.len() as int,
            ));
        }
        let inner = copy_range(&v, prod.len(), v.len() - 1);
        let sep = crate::text::find_char(&inner, ',');
        proof {
            lemma_first_at_props(inner@, ',', 0);
        }
        if sep < inner.len() {
            let count_part = copy_range(&inner, sep + 1, inner.len());
            match parse_u32(&count_part) {
                None => None,
                Some(n) => {
                    let method_part = copy_range(&inner, 0, sep);
                    Some(CountsOutput::Produce(chars_to_string(&method_part), n as usize))
                },
            }
        } else {
            None
        }
    } else {
        proof {
            if v@.len() > prod@.len() + 1 && v@.subrange(0, prod@.len() as int) == prod@
                && v@.last() == ')' {
                assert(crate::text::match_at(v@, prod@, 0));
            }
        }
        None
    }
}

} // verus!
