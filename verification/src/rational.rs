//! Exact fractional quantities: the arithmetic behind every amount.
//!
//! An amount is a rational number `num / den` with a positive denominator.
//! Addition is exact: the sum is computed over wide intermediates and brought
//! to lowest terms, so monetary aggregation never drifts. The zero test and
//! the sign test are exact as well, never epsilon-based.

use vstd::arithmetic::div_mod::{
    lemma_div_multiples_vanish, lemma_fundamental_div_mod, lemma_mod_multiples_basic,
};
use vstd::math::abs;
use vstd::prelude::*;

verus! {

/// Greatest common divisor by Euclid's algorithm.
pub open spec fn gcd(a: nat, b: nat) -> nat
    decreases b,
{
    if b == 0 {
        a
    } else {
        gcd(b, a % b)
    }
}

/// When one argument is positive, the gcd is positive and divides both
/// arguments.
pub proof fn lemma_gcd_divides(a: nat, b: nat)
    requires
        a > 0 || b > 0,
    ensures
        gcd(a, b) > 0,
        a as int % (gcd(a, b) as int) == 0,
        b as int % (gcd(a, b) as int) == 0,
    decreases b,
{
    if b == 0 {
        assert(a as int % (a as int) == 0) by {
            lemma_mod_multiples_basic(1, a as int);
        };
    } else {
        lemma_gcd_divides(b, a % b);
        let g = gcd(b, a % b) as int;
        // a = b * (a / b) + a % b, and both summands are multiples of g.
        lemma_fundamental_div_mod(a as int, b as int);
        let kb = b as int / g;
        let kr = (a % b) as int / g;
        lemma_fundamental_div_mod(b as int, g);
        lemma_fundamental_div_mod((a % b) as int, g);
        assert(b as int == g * kb);
        assert((a % b) as int == g * kr);
        assert(a as int == g * (kb * (a as int / b as int) + kr)) by (nonlinear_arith)
            requires
                a as int == b as int * (a as int / b as int) + (a % b) as int,
                b as int == g * kb,
                (a % b) as int == g * kr,
        ;
        assert((g * (kb * (a as int / b as int) + kr)) % g == 0) by {
            lemma_mod_multiples_basic(kb * (a as int / b as int) + kr, g);
        };
    }
}

/// Exact division with a sign: dividing a multiple of `g` by `g` negates
/// along with the dividend.
pub proof fn lemma_exact_div_signed(n: int, g: int)
    requires
        g > 0,
        abs(n) as int % g == 0,
    ensures
        n == g * (n / g),
        n >= 0 ==> n / g == abs(n) as int / g,
        n < 0 ==> n / g == -(abs(n) as int / g),
{
    if n >= 0 {
        lemma_fundamental_div_mod(n, g);
    } else {
        let m = abs(n) as int;
        lemma_fundamental_div_mod(m, g);
        let k = m / g;
        assert(m == g * k);
        assert(n == (-k) * g) by (nonlinear_arith)
            requires
                n == -m,
                m == g * k,
        ;
        lemma_div_multiples_vanish(-k, g);
        assert(g * (-k) == (-k) * g) by (nonlinear_arith);
        assert(n / g == -k);
        assert(n == g * (n / g)) by (nonlinear_arith)
            requires
                n == (-k) * g,
                n / g == -k,
        ;
    }
}

/// An exact rational quantity. Well-formed values keep `den` positive and
/// `num` above `i64::MIN`, so the magnitude of `num` always fits in `i64`.
#[derive(Clone, Copy, Debug, PartialEq, Eq, Structural)]
pub struct Rational {
    pub num: i64,
    pub den: i64,
}

/// A fraction at the specification level: numerator and denominator as
/// unbounded integers.
pub open spec fn frac_eq(n1: int, d1: int, n2: int, d2: int) -> bool {
    n1 * d2 == n2 * d1
}

/// The exact (unreduced) sum of two fractions: numerator part.
pub open spec fn sum_num(n1: int, d1: int, n2: int, d2: int) -> int {
    n1 * d2 + n2 * d1
}

/// The exact (unreduced) sum of two fractions: denominator part.
pub open spec fn sum_den(d1: int, d2: int) -> int {
    d1 * d2
}

impl Rational {
    /// Well-formedness: positive denominator, numerator magnitude in range.
    pub open spec fn wf(self) -> bool {
        self.den > 0 && self.num > i64::MIN
    }

    /// Two rationals denote the same number: cross multiplication.
    pub open spec fn same_value(self, other: Rational) -> bool {
        frac_eq(self.num as int, self.den as int, other.num as int, other.den as int)
    }

    /// The quantity is exactly zero.
    pub open spec fn spec_is_zero(self) -> bool {
        self.num == 0
    }

    /// The quantity is strictly negative.
    pub open spec fn spec_is_negative(self) -> bool {
        self.num < 0
    }

    /// The gcd by which the exact sum of `self` and `other` is reduced.
    pub open spec fn plus_gcd(self, other: Rational) -> int {
        gcd(
            abs(sum_num(self.num as int, self.den as int, other.num as int, other.den as int)),
            sum_den(self.den as int, other.den as int) as nat,
        ) as int
    }

    /// Numerator of the reduced exact sum.
    pub open spec fn plus_num(self, other: Rational) -> int {
        sum_num(self.num as int, self.den as int, other.num as int, other.den as int)
            / self.plus_gcd(other)
    }

    /// Denominator of the reduced exact sum.
    pub open spec fn plus_den(self, other: Rational) -> int {
        sum_den(self.den as int, other.den as int) / self.plus_gcd(other)
    }

    /// The reduced exact sum stays within the machine range.
    pub open spec fn plus_fits(self, other: Rational) -> bool {
        -i64::MAX <= self.plus_num(other) <= i64::MAX && self.plus_den(other) <= i64::MAX
    }

    /// The reduced exact sum as a machine value; meaningful whenever the sum
    /// fits, which `plus` requires.
    pub open spec fn spec_plus(self, other: Rational) -> Rational {
        Rational { num: self.plus_num(other) as i64, den: self.plus_den(other) as i64 }
    }

    /// Exact zero test on the stored fraction; never epsilon-based.
    pub fn is_zero(&self) -> (r: bool)
        requires
            self.wf(),
        ensures
            r == self.spec_is_zero(),
    {
        self.num == 0
    }

    /// Sign predicate evaluated on the exact value, not on a rendered string.
    pub fn is_negative(&self) -> (r: bool)
        requires
            self.wf(),
        ensures
            r == self.spec_is_negative(),
    {
        self.num < 0
    }

    /// Exact addition: the sum of the two fractions, brought to lowest terms
    /// by the gcd of its parts. The final clause states exactness: the result
    /// equals the mathematical sum by cross multiplication.
    pub fn plus(&self, other: &Rational) -> (r: Rational)
        requires
            self.wf(),
            other.wf(),
            self.plus_fits(*other),
        ensures
            r == self.spec_plus(*other),
            r.num as int == self.plus_num(*other),
            r.den as int == self.plus_den(*other),
            r.wf(),
            r.num as int * sum_den(self.den as int, other.den as int) == sum_num(
                self.num as int,
                self.den as int,
                other.num as int,
                other.den as int,
            ) * r.den as int,
    {
        let an = self.num as i128;
        let ad = self.den as i128;
        let bn = other.num as i128;
        let bd = other.den as i128;
        proof {
            assert(an * bd <= 0x7fff_ffff_ffff_ffffi128 * 0x7fff_ffff_ffff_ffffi128
                && an * bd >= -(0x7fff_ffff_ffff_ffffi128 * 0x7fff_ffff_ffff_ffffi128))
                by (nonlinear_arith)
                requires
                    -0x7fff_ffff_ffff_ffffi128 <= an <= 0x7fff_ffff_ffff_ffffi128,
                    1 <= bd <= 0x7fff_ffff_ffff_ffffi128,
            ;
            assert(bn * ad <= 0x7fff_ffff_ffff_ffffi128 * 0x7fff_ffff_ffff_ffffi128
                && bn * ad >= -(0x7fff_ffff_ffff_ffffi128 * 0x7fff_ffff_ffff_ffffi128))
                by (nonlinear_arith)
                requires
                    -0x7fff_ffff_ffff_ffffi128 <= bn <= 0x7fff_ffff_ffff_ffffi128,
                    1 <= ad <= 0x7fff_ffff_ffff_ffffi128,
            ;
            assert(ad * bd >= 1 && ad * bd <= 0x7fff_ffff_ffff_ffffi128
                * 0x7fff_ffff_ffff_ffffi128) by (nonlinear_arith)
                requires
                    1 <= ad <= 0x7fff_ffff_ffff_ffffi128,
                    1 <= bd <= 0x7fff_ffff_ffff_ffffi128,
            ;
        }
        let n: i128 = an * bd + bn * ad;
        let d: i128 = ad * bd;
        let neg: bool = n < 0;
        let mag: u128 = if neg {
            (-n) as u128
        } else {
            n as u128
        };
        let du: u128 = d as u128;
        proof {
            lemma_gcd_divides(mag as nat, du as nat);
        }
        let g: u128 = gcd_u128(mag, du);
        let qn: u128 = mag / g;
        let qd: u128 = du / g;
        proof {
            let gi = g as int;
            lemma_exact_div_signed(n as int, gi);
            lemma_exact_div_signed(d as int, gi);
            assert(qd >= 1) by {
                assert(d as int == gi * (d as int / gi));
                assert(d as int / gi > 0) by (nonlinear_arith)
                    requires
                        d as int == gi * (d as int / gi),
                        d as int > 0,
                        gi > 0,
                ;
            };
            // Exactness: (n / g) * d == n * (d / g).
            assert((n as int / gi) * d as int == n as int * (d as int / gi)) by (nonlinear_arith)
                requires
                    n as int == gi * (n as int / gi),
                    d as int == gi * (d as int / gi),
            ;
        }
        let num: i64 = if neg {
            -(qn as i64)
        } else {
            qn as i64
        };
        let den: i64 = qd as i64;
        Rational { num, den }
    }
}

/// The reduced exact sum of two well-formed rationals is itself well-formed
/// whenever it fits the machine range.
pub proof fn lemma_spec_plus_wf(a: Rational, b: Rational)
    requires
        a.wf(),
        b.wf(),
        a.plus_fits(b),
    ensures
        a.spec_plus(b).wf(),
        a.spec_plus(b).num as int == a.plus_num(b),
        a.spec_plus(b).den as int == a.plus_den(b),
{
    let n = sum_num(a.num as int, a.den as int, b.num as int, b.den as int);
    let d = sum_den(a.den as int, b.den as int);
    assert(d > 0) by (nonlinear_arith)
        requires
            a.den > 0,
            b.den > 0,
            d == a.den as int * b.den as int,
    ;
    let g = a.plus_gcd(b);
    lemma_gcd_divides(abs(n), d as nat);
    lemma_exact_div_signed(d, g);
    assert(d / g > 0) by (nonlinear_arith)
        requires
            d == g * (d / g),
            d > 0,
            g > 0,
    ;
}

/// Greatest common divisor, executable, matching the specification `gcd`.
pub fn gcd_u128(a: u128, b: u128) -> (g: u128)
    ensures
        g as nat == gcd(a as nat, b as nat),
{
    let mut x = a;
    let mut y = b;
    while y != 0
        invariant
            gcd(x as nat, y as nat) == gcd(a as nat, b as nat),
        decreases y,
    {
        let r = x % y;
        x = y;
        y = r;
    }
    x
}

/// Exact addition of amounts is commutative outright: the two orders give
/// the same machine value, not merely the same number.
pub proof fn lemma_plus_commutative(a: Rational, b: Rational)
    ensures
        a.spec_plus(b) == b.spec_plus(a),
        a.plus_fits(b) == b.plus_fits(a),
{
    assert(sum_num(a.num as int, a.den as int, b.num as int, b.den as int) == sum_num(
        b.num as int,
        b.den as int,
        a.num as int,
        a.den as int,
    ));
    assert(sum_den(a.den as int, b.den as int) == sum_den(b.den as int, a.den as int));
}

/// The reduced exact sum denotes exactly the mathematical sum of the two
/// fractions, by cross multiplication.
pub proof fn lemma_spec_plus_exact(a: Rational, b: Rational)
    requires
        a.wf(),
        b.wf(),
        a.plus_fits(b),
    ensures
        a.spec_plus(b).wf(),
        frac_eq(
            a.spec_plus(b).num as int,
            a.spec_plus(b).den as int,
            sum_num(a.num as int, a.den as int, b.num as int, b.den as int),
            sum_den(a.den as int, b.den as int),
        ),
{
    lemma_spec_plus_wf(a, b);
    let n = sum_num(a.num as int, a.den as int, b.num as int, b.den as int);
    let d = sum_den(a.den as int, b.den as int);
    assert(d > 0) by (nonlinear_arith)
        requires
            a.den > 0,
            b.den > 0,
            d == a.den as int * b.den as int,
    ;
    lemma_reduce_preserves_value(n, d);
}

/// Addition of fractions is commutative, exactly: the unreduced sum of two
/// fractions is the same fraction in either order.
pub proof fn lemma_sum_commutative(n1: int, d1: int, n2: int, d2: int)
    ensures
        sum_num(n1, d1, n2, d2) == sum_num(n2, d2, n1, d1),
        sum_den(d1, d2) == sum_den(d2, d1),
{
}

/// Addition of fractions is associative, exactly: summing three fractions in
/// either association yields the same value.
pub proof fn lemma_sum_associative(n1: int, d1: int, n2: int, d2: int, n3: int, d3: int)
    requires
        d1 > 0,
        d2 > 0,
        d3 > 0,
    ensures
        frac_eq(
            sum_num(sum_num(n1, d1, n2, d2), sum_den(d1, d2), n3, d3),
            sum_den(sum_den(d1, d2), d3),
            sum_num(n1, d1, sum_num(n2, d2, n3, d3), sum_den(d2, d3)),
            sum_den(d1, sum_den(d2, d3)),
        ),
{
    assert((n1 * d2 + n2 * d1) * d3 == (n1 * d2) * d3 + (n2 * d1) * d3) by (nonlinear_arith);
    assert((n2 * d3 + n3 * d2) * d1 == (n2 * d3) * d1 + (n3 * d2) * d1) by (nonlinear_arith);
    assert((n1 * d2) * d3 == n1 * (d2 * d3)) by (nonlinear_arith);
    assert((n2 * d1) * d3 == (n2 * d3) * d1) by (nonlinear_arith);
    assert(n3 * (d1 * d2) == (n3 * d2) * d1) by (nonlinear_arith);
    assert((d1 * d2) * d3 == d1 * (d2 * d3)) by (nonlinear_arith);
}

/// Reduction to lowest terms preserves the value of a fraction.
pub proof fn lemma_reduce_preserves_value(n: int, d: int)
    requires
        d > 0,
    ensures
        frac_eq(n / (gcd(abs(n), d as nat) as int), d / (gcd(abs(n), d as nat) as int), n, d),
{
    let g = gcd(abs(n), d as nat) as int;
    lemma_gcd_divides(abs(n), d as nat);
    lemma_exact_div_signed(n, g);
    lemma_exact_div_signed(d, g);
    assert((n / g) * d == n * (d / g)) by (nonlinear_arith)
        requires
            n == g * (n / g),
            d == g * (d / g),
    ;
}

/// Replacing one summand by an equal-valued fraction does not change the
/// value of a sum.
pub proof fn lemma_sum_congruent(n1: int, d1: int, n1p: int, d1p: int, n2: int, d2: int)
    requires
        d1 > 0,
        d1p > 0,
        d2 > 0,
        frac_eq(n1, d1, n1p, d1p),
    ensures
        frac_eq(
            sum_num(n1, d1, n2, d2),
            sum_den(d1, d2),
            sum_num(n1p, d1p, n2, d2),
            sum_den(d1p, d2),
        ),
{
    assert((n1 * d2 + n2 * d1) * (d1p * d2) == (n1 * d2) * (d1p * d2) + (n2 * d1) * (d1p
        * d2)) by (nonlinear_arith);
    assert((n1p * d2 + n2 * d1p) * (d1 * d2) == (n1p * d2) * (d1 * d2) + (n2 * d1p) * (d1
        * d2)) by (nonlinear_arith);
    assert((n1 * d2) * (d1p * d2) == (n1 * d1p) * (d2 * d2)) by (nonlinear_arith);
    assert((n1p * d2) * (d1 * d2) == (n1p * d1) * (d2 * d2)) by (nonlinear_arith);
    assert((n2 * d1) * (d1p * d2) == (n2 * d1p) * (d1 * d2)) by (nonlinear_arith);
}

/// Values are compared consistently: `frac_eq` is transitive over fractions
/// with positive denominators.
pub proof fn lemma_frac_eq_transitive(n1: int, d1: int, n2: int, d2: int, n3: int, d3: int)
    requires
        d1 > 0,
        d2 > 0,
        d3 > 0,
        frac_eq(n1, d1, n2, d2),
        frac_eq(n2, d2, n3, d3),
    ensures
        frac_eq(n1, d1, n3, d3),
{
    assert(n1 * d3 == n3 * d1) by (nonlinear_arith)
        requires
            n1 * d2 == n2 * d1,
            n2 * d3 == n3 * d2,
            d2 > 0,
    ;
}

} // verus!
