//! Exact rational throughput arithmetic.
//!
//! Throughputs (wares per minute) are kept as exact fractions of unsigned
//! integers instead of floating point, so every facility count the planner
//! reports is the true mathematical ceiling. Fractions are reduced with the
//! greatest common divisor after every operation to keep the fields small;
//! an operation whose reduced result would not fit below `RATE_BOUND`
//! reports failure instead of silently losing precision.

use vstd::prelude::*;

verus! {

use vstd::arithmetic::div_mod::{
    lemma_fundamental_div_mod,
    lemma_fundamental_div_mod_converse_div,
};

/// Upper bound kept on both fields of a reduced fraction, so that products of
/// two fields always fit in `u128` with room to spare.
pub const RATE_BOUND: u64 = 0x8000_0000_0000_0000;

/// `d` divides `x` exactly.
pub open spec fn divides(d: int, x: int) -> bool {
    exists|k: int| x == #[trigger] (d * k)
}

/// Euclid's greatest common divisor.
pub open spec fn spec_gcd(a: nat, b: nat) -> nat
    decreases b,
{
    if b == 0 {
        a
    } else {
        spec_gcd(b, a % b)
    }
}

pub proof fn lemma_gcd_divides(a: nat, b: nat)
    ensures
        divides(spec_gcd(a, b) as int, a as int),
        divides(spec_gcd(a, b) as int, b as int),
    decreases b,
{
    if b == 0 {
        assert(a as int == (a as int) * 1);
        assert(0int == (a as int) * 0);
    } else {
        lemma_gcd_divides(b, a % b);
        let g = spec_gcd(b, a % b) as int;
        let k1 = choose|k: int| b as int == #[trigger] (g * k);
        let k2 = choose|k: int| (a % b) as int == #[trigger] (g * k);
        lemma_fundamental_div_mod(a as int, b as int);
        assert(a as int == (b as int) * ((a as int) / (b as int)) + (a % b) as int);
        let q = (a as int) / (b as int);
        assert((b as int) * q == (g * k1) * q);
        assert((g * k1) * q == g * (k1 * q)) by (nonlinear_arith);
        assert(a as int == g * (k1 * q) + g * k2);
        assert(g * (k1 * q) + g * k2 == g * (k1 * q + k2)) by (nonlinear_arith);
        assert(a as int == g * (k1 * q + k2));
    }
}

pub proof fn lemma_gcd_pos(a: nat, b: nat)
    requires
        a != 0 || b != 0,
    ensures
        spec_gcd(a, b) >= 1,
    decreases b,
{
    if b != 0 {
        lemma_gcd_pos(b, a % b);
    }
}

/// A quantity that divides a positive bounded quantity is itself bounded by it.
pub proof fn lemma_divides_bounds(d: int, x: int)
    requires
        divides(d, x),
        1 <= d,
        1 <= x,
    ensures
        d <= x,
        1 <= x / d,
        x / d <= x,
        x == d * (x / d),
{
    let k = choose|k: int| x == #[trigger] (d * k);
    assert(k >= 1) by (nonlinear_arith)
        requires
            x == d * k,
            d >= 1,
            x >= 1,
    ;
    assert(d * k >= d * 1) by (nonlinear_arith)
        requires
            k >= 1,
            d >= 1,
    ;
    assert(x == k * d + 0) by (nonlinear_arith)
        requires
            x == d * k,
    ;
    lemma_fundamental_div_mod_converse_div(x, d, k, 0);
    assert(x / d == k);
    assert(d * k >= 1 * k) by (nonlinear_arith)
        requires
            d >= 1,
            k >= 1,
    ;
}

/// Products of values that fit in 64 bits fit in 128 bits.
pub proof fn lemma_mul_le_u128(a: u128, b: u128)
    requires
        a <= u64::MAX,
        b <= u64::MAX,
    ensures
        a * b <= 0xFFFF_FFFF_FFFF_FFFFu128 * 0xFFFF_FFFF_FFFF_FFFFu128,
{
    assert(a * b <= 0xFFFF_FFFF_FFFF_FFFFu128 * 0xFFFF_FFFF_FFFF_FFFFu128) by (nonlinear_arith)
        requires
            0 <= a <= 0xFFFF_FFFF_FFFF_FFFFu128,
            0 <= b <= 0xFFFF_FFFF_FFFF_FFFFu128,
    ;
}

/// Products of fields of well-formed rates leave ample headroom in 128 bits.
pub proof fn lemma_mul_le_bound(a: u128, b: u128)
    requires
        a <= 0x8000_0000_0000_0000u128,
        b <= 0x8000_0000_0000_0000u128,
    ensures
        a * b <= 0x4000_0000_0000_0000_0000_0000_0000_0000u128,
{
    assert(a * b <= 0x4000_0000_0000_0000_0000_0000_0000_0000u128) by (nonlinear_arith)
        requires
            0 <= a <= 0x8000_0000_0000_0000u128,
            0 <= b <= 0x8000_0000_0000_0000u128,
    ;
}

/// Exact greatest common divisor, by Euclid's algorithm.
pub fn gcd_u128(a: u128, b: u128) -> (g: u128)
    ensures
        g == spec_gcd(a as nat, b as nat),
{
    let mut x = a;
    let mut y = b;
    while y != 0
        invariant
            spec_gcd(x as nat, y as nat) == spec_gcd(a as nat, b as nat),
        decreases y,
    {
        let r = x % y;
        x = y;
        y = r;
    }
    x
}

/// An exact non-negative fraction `num / den` of wares per minute.
#[derive(Debug, Clone, Copy, PartialEq, Eq, Structural)]
pub struct Rate {
    pub num: u64,
    pub den: u64,
}

impl Rate {
    /// Well-formed: a positive denominator, both fields within `RATE_BOUND`.
    pub open spec fn wf(self) -> bool {
        &&& 1 <= self.den
        &&& self.num <= RATE_BOUND
        &&& self.den <= RATE_BOUND
    }

    /// The two fractions denote the same rational number.
    pub open spec fn eqv(self, other: Rate) -> bool {
        self.num * other.den == other.num * self.den
    }

    pub open spec fn is_zero(self) -> bool {
        self.num == 0
    }

    /// This fraction is `n / d` as a rational number.
    pub open spec fn is_frac(self, n: int, d: int) -> bool {
        self.num * d == n * self.den
    }

    pub fn new_whole(n: u64) -> (r: Rate)
        requires
            n <= RATE_BOUND,
        ensures
            r.wf(),
            r.num == n,
            r.den == 1,
    {
        Rate { num: n, den: 1 }
    }
}

/// The reduced fraction `s / d`, unless a reduced field would exceed
/// `RATE_BOUND`.
pub open spec fn spec_rate_reduce(s: int, d: int) -> Option<Rate> {
    let g = spec_gcd(s as nat, d as nat) as int;
    if s / g <= RATE_BOUND && d / g <= RATE_BOUND {
        Some(Rate { num: (s / g) as u64, den: (d / g) as u64 })
    } else {
        None
    }
}

/// Reduction keeps the denominator positive and denotes the same rational.
pub proof fn lemma_rate_reduce_eqv(s: int, d: int)
    requires
        0 <= s,
        1 <= d,
        spec_rate_reduce(s, d) is Some,
    ensures
        spec_rate_reduce(s, d)->Some_0.wf(),
        spec_rate_reduce(s, d)->Some_0.is_frac(s, d),
{
    let g = spec_gcd(s as nat, d as nat) as int;
    lemma_gcd_pos(s as nat, d as nat);
    lemma_gcd_divides(s as nat, d as nat);
    lemma_divides_bounds(g, d);
    let r = spec_rate_reduce(s, d)->Some_0;
    if s == 0 {
        vstd::arithmetic::div_mod::lemma_div_of0(g);
        assert(r.num == 0);
        assert(r.num * d == s * r.den) by (nonlinear_arith)
            requires
                r.num == 0,
                s == 0,
        ;
    } else {
        lemma_divides_bounds(g, s);
        assert(s == g * (s / g));
        assert(d == g * (d / g));
        assert((s / g) * d == s * (d / g)) by (nonlinear_arith)
            requires
                s == g * (s / g),
                d == g * (d / g),
        ;
    }
}

/// Exact reduction of `s / d` to lowest terms, within `RATE_BOUND`.
pub fn rate_reduce(s: u128, d: u128) -> (r: Option<Rate>)
    requires
        1 <= d,
    ensures
        r == spec_rate_reduce(s as int, d as int),
{
    let g = gcd_u128(s, d);
    proof {
        lemma_gcd_pos(s as nat, d as nat);
        lemma_gcd_divides(s as nat, d as nat);
        lemma_divides_bounds(g as int, d as int);
        if s > 0 {
            lemma_divides_bounds(g as int, s as int);
        } else {
            vstd::arithmetic::div_mod::lemma_div_of0(g as int);
        }
    }
    let rn = s / g;
    let rd = d / g;
    if rn <= RATE_BOUND as u128 && rd <= RATE_BOUND as u128 {
        Some(Rate { num: rn as u64, den: rd as u64 })
    } else {
        None
    }
}

/// The exact sum of two well-formed rates, reduced.
pub open spec fn spec_rate_add(a: Rate, b: Rate) -> Option<Rate> {
    spec_rate_reduce(a.num * b.den + b.num * a.den, a.den * b.den)
}

/// Adds two rates exactly; `None` only when the reduced sum leaves
/// `RATE_BOUND`.
pub fn rate_add(a: &Rate, b: &Rate) -> (r: Option<Rate>)
    requires
        a.wf(),
        b.wf(),
    ensures
        r == spec_rate_add(*a, *b),
        r matches Some(rr) ==> rr.wf() && rr.is_frac(
            a.num * b.den + b.num * a.den,
            a.den * b.den,
        ),
{
    proof {
        lemma_mul_le_bound(a.num as u128, b.den as u128);
        lemma_mul_le_bound(b.num as u128, a.den as u128);
        lemma_mul_le_bound(a.den as u128, b.den as u128);
    }
    let s: u128 = (a.num as u128) * (b.den as u128) + (b.num as u128) * (a.den as u128);
    let d: u128 = (a.den as u128) * (b.den as u128);
    proof {
        assert(1 <= d <= 0x8000_0000_0000_0000u128 * 0x8000_0000_0000_0000u128)
            by (nonlinear_arith)
            requires
                1 <= a.den <= 0x8000_0000_0000_0000u64,
                1 <= b.den <= 0x8000_0000_0000_0000u64,
                d == a.den * b.den,
        ;
        if spec_rate_add(*a, *b) is Some {
            lemma_rate_reduce_eqv(s as int, d as int);
        }
    }
    rate_reduce(s, d)
}

/// The exact product `r * k`, reduced.
pub open spec fn spec_rate_scale(a: Rate, k: int) -> Option<Rate> {
    spec_rate_reduce(a.num * k, a.den as int)
}

/// Scales a rate by a whole count exactly.
pub fn rate_scale(a: &Rate, k: usize) -> (r: Option<Rate>)
    requires
        a.wf(),
    ensures
        r == spec_rate_scale(*a, k as int),
        r matches Some(rr) ==> rr.wf() && rr.is_frac(a.num * k, a.den as int),
{
    proof {
        lemma_mul_le_u128(a.num as u128, k as u128);
    }
    let s: u128 = (a.num as u128) * (k as u128);
    proof {
        assert(a.num * k == s) by (nonlinear_arith)
            requires
                s == (a.num as u128) * (k as u128),
        ;
        if spec_rate_scale(*a, k as int) is Some {
            lemma_rate_reduce_eqv(s as int, a.den as int);
        }
    }
    rate_reduce(s, a.den as u128)
}

/// `ceil(x / y)` over the integers.
pub open spec fn spec_ceil_div(x: int, y: int) -> int {
    (x + y - 1) / y
}

/// A fraction no greater than another never has the larger ceiling:
/// `x1/y1 <= x2/y2` (as rationals) implies `ceil(x1/y1) <= ceil(x2/y2)`.
pub proof fn lemma_ceil_div_monotone(x1: int, y1: int, x2: int, y2: int)
    requires
        0 <= x1,
        0 <= x2,
        1 <= y1,
        1 <= y2,
        x1 * y2 <= x2 * y1,
    ensures
        spec_ceil_div(x1, y1) <= spec_ceil_div(x2, y2),
{
    let ca = spec_ceil_div(x1, y1);
    let cb = spec_ceil_div(x2, y2);
    lemma_fundamental_div_mod(x1 + y1 - 1, y1);
    lemma_fundamental_div_mod(x2 + y2 - 1, y2);
    let r1 = (x1 + y1 - 1) % y1;
    let r2 = (x2 + y2 - 1) % y2;
    assert(x1 + y1 - 1 == y1 * ca + r1 && 0 <= r1 < y1);
    assert(x2 + y2 - 1 == y2 * cb + r2 && 0 <= r2 < y2);
    assert((ca - 1) * y1 < x1) by (nonlinear_arith)
        requires
            x1 + y1 - 1 == y1 * ca + r1,
            0 <= r1 < y1,
            1 <= y1,
    ;
    assert(cb * y2 >= x2) by (nonlinear_arith)
        requires
            x2 + y2 - 1 == y2 * cb + r2,
            0 <= r2 < y2,
            1 <= y2,
    ;
    assert((ca - 1) * (y1 * y2) < cb * (y2 * y1)) by (nonlinear_arith)
        requires
            (ca - 1) * y1 < x1,
            x1 * y2 <= x2 * y1,
            cb * y2 >= x2,
            1 <= y1,
            1 <= y2,
    ;
    assert(ca - 1 < cb) by (nonlinear_arith)
        requires
            (ca - 1) * (y1 * y2) < cb * (y2 * y1),
            1 <= y1,
            1 <= y2,
    ;
}

/// The minimal whole number of facilities: `ceil(desired / per_facility)`,
/// unless it does not fit in `usize`.
pub open spec fn spec_fabrics_count(desired: Rate, per_facility: Rate) -> Option<usize> {
    let x = desired.num * per_facility.den;
    let y = desired.den * per_facility.num;
    if spec_ceil_div(x, y) <= usize::MAX {
        Some(spec_ceil_div(x, y) as usize)
    } else {
        None
    }
}

pub fn fabrics_count(desired: &Rate, per_facility: &Rate) -> (r: Option<usize>)
    requires
        desired.wf(),
        per_facility.wf(),
        1 <= per_facility.num,
    ensures
        r == spec_fabrics_count(*desired, *per_facility),
{
    proof {
        lemma_mul_le_u128(desired.num as u128, per_facility.den as u128);
        lemma_mul_le_u128(desired.den as u128, per_facility.num as u128);
    }
    let x: u128 = (desired.num as u128) * (per_facility.den as u128);
    let y: u128 = (desired.den as u128) * (per_facility.num as u128);
    proof {
        assert(1 <= y <= 0x8000_0000_0000_0000u128 * 0x8000_0000_0000_0000u128)
            by (nonlinear_arith)
            requires
                1 <= desired.den <= 0x8000_0000_0000_0000u64,
                1 <= per_facility.num <= 0x8000_0000_0000_0000u64,
                y == desired.den * per_facility.num,
        ;
        assert(x <= 0x8000_0000_0000_0000u128 * 0x8000_0000_0000_0000u128)
            by (nonlinear_arith)
            requires
                desired.num <= 0x8000_0000_0000_0000u64,
                per_facility.den <= 0x8000_0000_0000_0000u64,
                x == desired.num * per_facility.den,
        ;
    }
    let c: u128 = (x + y - 1) / y;
    if c <= usize::MAX as u128 {
        Some(c as usize)
    } else {
        None
    }
}


/// Bezout coefficients exist for the greatest common divisor.
pub proof fn lemma_bezout(a: nat, b: nat)
    ensures
        exists|x: int, y: int|
            spec_gcd(a, b) as int == #[trigger] ((a as int) * x + (b as int) * y),
    decreases b,
{
    if b == 0 {
        assert(spec_gcd(a, 0) as int == (a as int) * 1int + (0int) * 0int) by (nonlinear_arith);
    } else {
        lemma_bezout(b, a % b);
        let (x2, y2): (int, int) = choose|x: int, y: int|
            spec_gcd(b, a % b) as int == #[trigger] ((b as int) * x + ((a % b) as int) * y);
        lemma_fundamental_div_mod(a as int, b as int);
        let q = (a as int) / (b as int);
        assert((b as int) * x2 + ((a as int) - (b as int) * q) * y2 == (a as int) * y2 + (
        b as int) * (x2 - q * y2)) by (nonlinear_arith);
        assert(spec_gcd(a, b) as int == (a as int) * y2 + (b as int) * (x2 - q * y2));
    }
}

/// A common divisor of two quantities divides their greatest common
/// divisor.
pub proof fn lemma_gcd_universal(a: nat, b: nat, c: int)
    requires
        1 <= c,
        divides(c, a as int),
        divides(c, b as int),
    ensures
        divides(c, spec_gcd(a, b) as int),
{
    lemma_bezout(a, b);
    let (x, y): (int, int) = choose|x: int, y: int|
        spec_gcd(a, b) as int == #[trigger] ((a as int) * x + (b as int) * y);
    let k1 = choose|k: int| a as int == #[trigger] (c * k);
    let k2 = choose|k: int| b as int == #[trigger] (c * k);
    assert((c * k1) * x + (c * k2) * y == c * (k1 * x + k2 * y)) by (nonlinear_arith);
    assert(spec_gcd(a, b) as int == c * (k1 * x + k2 * y));
}

/// The greatest common divisor is symmetric in its arguments.
pub proof fn lemma_gcd_sym(a: nat, b: nat)
    requires
        1 <= a || 1 <= b,
    ensures
        spec_gcd(a, b) == spec_gcd(b, a),
{
    lemma_gcd_pos(a, b);
    lemma_gcd_pos(b, a);
    lemma_gcd_divides(a, b);
    lemma_gcd_divides(b, a);
    let g1 = spec_gcd(a, b) as int;
    let g2 = spec_gcd(b, a) as int;
    lemma_gcd_universal(b, a, g1);
    lemma_gcd_universal(a, b, g2);
    lemma_divides_bounds(g1, g2);
    lemma_divides_bounds(g2, g1);
}

/// Euclid's lemma: a factor coprime to one part of a product divides the
/// other part.
pub proof fn lemma_coprime_divides(c: int, a: int, b: int)
    requires
        1 <= c,
        0 <= a,
        0 <= b,
        spec_gcd(c as nat, a as nat) == 1,
        divides(c, a * b),
    ensures
        divides(c, b),
{
    lemma_bezout(c as nat, a as nat);
    let (x, y): (int, int) = choose|x: int, y: int|
        spec_gcd(c as nat, a as nat) as int == #[trigger] ((c as int) * x + (a as int) * y);
    let k = choose|k: int| a * b == #[trigger] (c * k);
    assert(b == b * (c * x + a * y)) by (nonlinear_arith)
        requires
            1int == c * x + a * y,
    ;
    assert(b * (c * x + a * y) == c * (b * x) + (a * b) * y) by (nonlinear_arith);
    assert(c * (b * x) + (c * k) * y == c * (b * x + k * y)) by (nonlinear_arith);
    assert(b == c * (b * x + k * y));
}


/// A reduced fraction is in lowest terms.
pub proof fn lemma_reduced_coprime(s: int, d: int)
    requires
        0 <= s,
        1 <= d,
        spec_rate_reduce(s, d) is Some,
    ensures
        spec_gcd(
            spec_rate_reduce(s, d)->Some_0.num as nat,
            spec_rate_reduce(s, d)->Some_0.den as nat,
        ) == 1,
{
    let g = spec_gcd(s as nat, d as nat) as int;
    lemma_gcd_pos(s as nat, d as nat);
    lemma_gcd_divides(s as nat, d as nat);
    lemma_divides_bounds(g, d);
    if s == 0 {
        vstd::arithmetic::div_mod::lemma_div_of0(g);
    } else {
        lemma_divides_bounds(g, s);
    }
    lemma_reduced_coprime_pair(s, d);
}

/// Equal rationals in lowest terms are the same pair.
pub proof fn lemma_reduced_unique(n1: int, d1: int, n2: int, d2: int)
    requires
        0 <= n1,
        1 <= d1,
        0 <= n2,
        1 <= d2,
        spec_gcd(n1 as nat, d1 as nat) == 1,
        spec_gcd(n2 as nat, d2 as nat) == 1,
        n1 * d2 == n2 * d1,
    ensures
        n1 == n2,
        d1 == d2,
{
    assert(divides(d1, n1 * d2)) by {
        assert(n1 * d2 == d1 * n2) by (nonlinear_arith)
            requires
                n1 * d2 == n2 * d1,
        ;
    }
    lemma_gcd_sym(n1 as nat, d1 as nat);
    lemma_coprime_divides(d1, n1, d2);
    assert(divides(d2, n2 * d1)) by {
        assert(n2 * d1 == d2 * n1) by (nonlinear_arith)
            requires
                n1 * d2 == n2 * d1,
        ;
    }
    lemma_gcd_sym(n2 as nat, d2 as nat);
    lemma_coprime_divides(d2, n2, d1);
    lemma_divides_bounds(d1, d2);
    lemma_divides_bounds(d2, d1);
    assert(d1 == d2);
    assert(n1 == n2) by (nonlinear_arith)
        requires
            n1 * d2 == n2 * d1,
            d1 == d2,
            1 <= d1,
    ;
}

/// Rational equality is transitive across a positive middle denominator.
pub proof fn lemma_rat_eq_trans(n1: int, d1: int, n2: int, d2: int, n3: int, d3: int)
    requires
        1 <= d2,
        n1 * d2 == n2 * d1,
        n2 * d3 == n3 * d2,
    ensures
        n1 * d3 == n3 * d1,
{
    assert((n1 * d3) * d2 == (n3 * d1) * d2) by (nonlinear_arith)
        requires
            n1 * d2 == n2 * d1,
            n2 * d3 == n3 * d2,
    ;
    assert(n1 * d3 == n3 * d1) by (nonlinear_arith)
        requires
            (n1 * d3) * d2 == (n3 * d1) * d2,
            1 <= d2,
    ;
}

/// Reduction is canonical: fractions of equal value reduce to the same
/// pair, and one reduces within bounds exactly when the other does.
pub proof fn lemma_reduce_canonical(s1: int, d1: int, s2: int, d2: int)
    requires
        0 <= s1,
        1 <= d1,
        0 <= s2,
        1 <= d2,
        s1 * d2 == s2 * d1,
    ensures
        spec_rate_reduce(s1, d1) == spec_rate_reduce(s2, d2),
{
    let g1 = spec_gcd(s1 as nat, d1 as nat) as int;
    let g2 = spec_gcd(s2 as nat, d2 as nat) as int;
    lemma_gcd_pos(s1 as nat, d1 as nat);
    lemma_gcd_pos(s2 as nat, d2 as nat);
    lemma_gcd_divides(s1 as nat, d1 as nat);
    lemma_gcd_divides(s2 as nat, d2 as nat);
    lemma_divides_bounds(g1, d1);
    lemma_divides_bounds(g2, d2);
    let sn1 = s1 / g1;
    let dn1 = d1 / g1;
    let sn2 = s2 / g2;
    let dn2 = d2 / g2;
    if s1 == 0 {
        vstd::arithmetic::div_mod::lemma_div_of0(g1);
        assert(s1 == g1 * sn1) by (nonlinear_arith)
            requires
                s1 == 0,
                sn1 == 0,
        ;
    } else {
        lemma_divides_bounds(g1, s1);
    }
    if s2 == 0 {
        vstd::arithmetic::div_mod::lemma_div_of0(g2);
        assert(s2 == g2 * sn2) by (nonlinear_arith)
            requires
                s2 == 0,
                sn2 == 0,
        ;
    } else {
        lemma_divides_bounds(g2, s2);
    }
    assert(sn1 * d1 == s1 * dn1) by (nonlinear_arith)
        requires
            s1 == g1 * sn1,
            d1 == g1 * dn1,
    ;
    assert(sn2 * d2 == s2 * dn2) by (nonlinear_arith)
        requires
            s2 == g2 * sn2,
            d2 == g2 * dn2,
    ;
    lemma_rat_eq_trans(sn1, dn1, s1, d1, s2, d2);
    lemma_rat_eq_trans(sn1, dn1, s2, d2, sn2, dn2);
    lemma_reduced_coprime_pair(s1, d1);
    lemma_reduced_coprime_pair(s2, d2);
    lemma_reduced_unique(sn1, dn1, sn2, dn2);
}

/// The candidate pair of any reduction is in lowest terms, bound check or
/// not.
pub proof fn lemma_reduced_coprime_pair(s: int, d: int)
    requires
        0 <= s,
        1 <= d,
    ensures
        ({
            let g = spec_gcd(s as nat, d as nat) as int;
            spec_gcd((s / g) as nat, (d / g) as nat) == 1
        }),
{
    let g = spec_gcd(s as nat, d as nat) as int;
    lemma_gcd_pos(s as nat, d as nat);
    lemma_gcd_divides(s as nat, d as nat);
    lemma_divides_bounds(g, d);
    let sn = s / g;
    let dn = d / g;
    if s == 0 {
        vstd::arithmetic::div_mod::lemma_div_of0(g);
        assert(divides(d, 0int)) by {
            assert(0int == d * 0);
        }
        assert(divides(d, d)) by {
            assert(d == d * 1);
        }
        lemma_gcd_universal(s as nat, d as nat, d);
        lemma_divides_bounds(d, g);
        assert(g == d);
        assert(dn == 1) by (nonlinear_arith)
            requires
                d == g * dn,
                g == d,
                1 <= d,
        ;
        assert(sn == 0);
        assert(spec_gcd(1nat, 0nat) == 1);
        assert(spec_gcd(0nat, 1nat) == 1);
    } else {
        lemma_divides_bounds(g, s);
        let h = spec_gcd(sn as nat, dn as nat) as int;
        lemma_gcd_pos(sn as nat, dn as nat);
        lemma_gcd_divides(sn as nat, dn as nat);
        let k1 = choose|k: int| sn == #[trigger] (h * k);
        let k2 = choose|k: int| dn == #[trigger] (h * k);
        assert(s == (g * h) * k1) by (nonlinear_arith)
            requires
                s == g * sn,
                sn == h * k1,
        ;
        assert(d == (g * h) * k2) by (nonlinear_arith)
            requires
                d == g * dn,
                dn == h * k2,
        ;
        assert(1 <= g * h) by (nonlinear_arith)
            requires
                1 <= g,
                1 <= h,
        ;
        assert(divides(g * h, s));
        assert(divides(g * h, d));
        lemma_gcd_universal(s as nat, d as nat, g * h);
        lemma_divides_bounds(g * h, g);
        assert(h == 1) by (nonlinear_arith)
            requires
                g * h <= g,
                1 <= g,
                1 <= h,
        ;
    }
}


/// Adding rates is symmetric.
pub proof fn lemma_rate_add_comm(a: Rate, b: Rate)
    ensures
        spec_rate_add(a, b) == spec_rate_add(b, a),
{
    assert(a.num * b.den + b.num * a.den == b.num * a.den + a.num * b.den)
        by (nonlinear_arith);
    assert(a.den * b.den == b.den * a.den) by (nonlinear_arith);
}

/// Merging in sequence equals merging the one summed demand: adding `r2` to
/// the reduced sum of `a` and `r1` yields the very pair that adding the
/// reduced sum of `r1` and `r2` to `a` yields.
pub proof fn lemma_rate_add_assoc(a: Rate, r1: Rate, r2: Rate)
    requires
        a.wf(),
        r1.wf(),
        r2.wf(),
        spec_rate_add(a, r1) is Some,
        spec_rate_add(r1, r2) is Some,
    ensures
        spec_rate_add(spec_rate_add(a, r1)->Some_0, r2) == spec_rate_add(
            a,
            spec_rate_add(r1, r2)->Some_0,
        ),
{
    let sa1 = a.num * r1.den + r1.num * a.den;
    let da1 = a.den * r1.den;
    let s12 = r1.num * r2.den + r2.num * r1.den;
    let d12 = r1.den * r2.den;
    assert(0 <= sa1 && 1 <= da1 && 0 <= s12 && 1 <= d12) by (nonlinear_arith)
        requires
            a.num >= 0,
            r1.num >= 0,
            r2.num >= 0,
            a.den >= 1,
            r1.den >= 1,
            r2.den >= 1,
            sa1 == a.num * r1.den + r1.num * a.den,
            da1 == a.den * r1.den,
            s12 == r1.num * r2.den + r2.num * r1.den,
            d12 == r1.den * r2.den,
    ;
    lemma_rate_reduce_eqv(sa1, da1);
    lemma_rate_reduce_eqv(s12, d12);
    let b = spec_rate_add(a, r1)->Some_0;
    let r12 = spec_rate_add(r1, r2)->Some_0;
    let x1 = b.num * r2.den + r2.num * b.den;
    let y1 = b.den * r2.den;
    let x2 = a.num * r12.den + r12.num * a.den;
    let y2 = a.den * r12.den;
    let u = a.num * (r1.den * r2.den) + r1.num * (a.den * r2.den) + r2.num * (a.den
        * r1.den);
    let v = a.den * (r1.den * r2.den);
    assert(0 <= x1 && 1 <= y1 && 0 <= x2 && 1 <= y2 && 1 <= v) by (nonlinear_arith)
        requires
            a.num >= 0,
            r2.num >= 0,
            r12.num >= 0,
            b.num >= 0,
            a.den >= 1,
            r1.den >= 1,
            r2.den >= 1,
            b.den >= 1,
            r12.den >= 1,
            x1 == b.num * r2.den + r2.num * b.den,
            y1 == b.den * r2.den,
            x2 == a.num * r12.den + r12.num * a.den,
            y2 == a.den * r12.den,
            v == a.den * (r1.den * r2.den),
    ;
    // the sequential sum, over the common denominator
    assert(v == da1 * r2.den) by (nonlinear_arith)
        requires
            da1 == a.den * r1.den,
            v == a.den * (r1.den * r2.den),
    ;
    assert(x1 * (da1 * r2.den) == (b.num * da1) * (r2.den * r2.den) + (r2.num * b.den) * (
    da1 * r2.den)) by (nonlinear_arith)
        requires
            x1 == b.num * r2.den + r2.num * b.den,
    ;
    assert(u == sa1 * r2.den + r2.num * da1) by (nonlinear_arith)
        requires
            sa1 == a.num * r1.den + r1.num * a.den,
            da1 == a.den * r1.den,
            u == a.num * (r1.den * r2.den) + r1.num * (a.den * r2.den) + r2.num * (a.den
                * r1.den),
    ;
    assert((sa1 * b.den) * (r2.den * r2.den) + (r2.num * b.den) * (da1 * r2.den) == (sa1
        * r2.den + r2.num * da1) * (b.den * r2.den)) by (nonlinear_arith);
    assert(x1 * v == u * y1) by (nonlinear_arith)
        requires
            x1 * (da1 * r2.den) == (b.num * da1) * (r2.den * r2.den) + (r2.num * b.den) * (
            da1 * r2.den),
            b.num * da1 == sa1 * b.den,
            (sa1 * b.den) * (r2.den * r2.den) + (r2.num * b.den) * (da1 * r2.den) == (sa1
                * r2.den + r2.num * da1) * (b.den * r2.den),
            u == sa1 * r2.den + r2.num * da1,
            v == da1 * r2.den,
            y1 == b.den * r2.den,
    ;
    // the combined sum, over the same common denominator
    assert(v == a.den * d12) by (nonlinear_arith)
        requires
            d12 == r1.den * r2.den,
            v == a.den * (r1.den * r2.den),
    ;
    assert(u == a.num * d12 + s12 * a.den) by (nonlinear_arith)
        requires
            s12 == r1.num * r2.den + r2.num * r1.den,
            d12 == r1.den * r2.den,
            u == a.num * (r1.den * r2.den) + r1.num * (a.den * r2.den) + r2.num * (a.den
                * r1.den),
    ;
    assert(x2 * (a.den * d12) == (a.num * d12 + s12 * a.den) * (a.den * r12.den))
        by (nonlinear_arith)
        requires
            x2 == a.num * r12.den + r12.num * a.den,
            r12.num * d12 == s12 * r12.den,
    ;
    assert(x2 * v == u * y2) by (nonlinear_arith)
        requires
            x2 * (a.den * d12) == (a.num * d12 + s12 * a.den) * (a.den * r12.den),
            u == a.num * d12 + s12 * a.den,
            v == a.den * d12,
            y2 == a.den * r12.den,
    ;
    lemma_rat_eq_trans(x1, y1, u, v, x2, y2);
    lemma_reduce_canonical(x1, y1, x2, y2);
}

/// Merged demand sums exactly and in any order: starting from an
/// accumulated throughput `a`, demanding `r1` then `r2`, demanding `r2`
/// then `r1`, and demanding the single summed throughput all accumulate the
/// very same exact fraction - so every facility count computed from it is
/// the same as well.
pub proof fn lemma_merge_commutes(a: Rate, r1: Rate, r2: Rate)
    requires
        a.wf(),
        r1.wf(),
        r2.wf(),
        spec_rate_add(a, r1) is Some,
        spec_rate_add(a, r2) is Some,
        spec_rate_add(r1, r2) is Some,
    ensures
        spec_rate_add(spec_rate_add(a, r1)->Some_0, r2) == spec_rate_add(
            a,
            spec_rate_add(r1, r2)->Some_0,
        ),
        spec_rate_add(spec_rate_add(a, r2)->Some_0, r1) == spec_rate_add(
            a,
            spec_rate_add(r1, r2)->Some_0,
        ),
{
    lemma_rate_add_assoc(a, r1, r2);
    lemma_rate_add_comm(r1, r2);
    lemma_rate_add_assoc(a, r2, r1);
    lemma_rate_add_comm(r2, r1);
}

} // verus!
