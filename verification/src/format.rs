//! Canonical rendering of an amount as an exact decimal string.
//!
//! The sign is explicit: a leading `-` for negative, nothing for positive.
//! The fractional digits come from long division and stop exactly when the
//! remainder vanishes, so there is no trailing zero padding and no rounding.
//! A quantity with no finite decimal expansion is rendered as an explicit
//! fraction `numerator/denominator`, which is still exact.

use crate::rational::Rational;
use crate::text::{append_decimal, dec_digits, digit_char, digit_str};
use vstd::math::abs;
use vstd::prelude::*;

verus! {

/// How many fractional digits long division may produce before the expansion
/// is declared non-terminating. A denominator below `2^64` that divides some
/// power of ten does so within 64 digits, so no terminating expansion is cut
/// off by this bound.
pub const FRAC_DIGIT_BOUND: u64 = 64;

/// The digits after the decimal point for remainder `r` over denominator `d`:
/// long division, one digit per step, stopping at remainder zero. `None` when
/// the expansion does not terminate within `fuel` digits.
pub open spec fn frac_expansion(r: nat, d: nat, fuel: nat) -> Option<Seq<char>>
    decreases fuel,
{
    if r == 0 {
        Some(Seq::empty())
    } else if fuel == 0 {
        None
    } else {
        match frac_expansion((r * 10) % d, d, (fuel - 1) as nat) {
            Option::None => Option::None,
            Option::Some(t) => Option::Some(seq![digit_char(((r * 10) / d) as int)] + t),
        }
    }
}

/// The canonical rendering of the exact value `n / d`: sign, integer part,
/// then the exact fractional digits if the expansion terminates, else the
/// fraction written out.
pub open spec fn spec_format_amount(n: int, d: int) -> Seq<char> {
    let sign: Seq<char> = if n < 0 {
        seq!['-']
    } else {
        Seq::empty()
    };
    let m = abs(n);
    match frac_expansion(m % (d as nat), d as nat, FRAC_DIGIT_BOUND as nat) {
        Option::Some(f) => if f.len() == 0 {
            sign + dec_digits(m / (d as nat))
        } else {
            sign + dec_digits(m / (d as nat)) + seq!['.'] + f
        },
        Option::None => sign + dec_digits(m) + seq!['/'] + dec_digits(d as nat),
    }
}

/// The fractional digit string by executable long division, mirroring
/// `frac_expansion` step for step.
fn frac_string(r: u64, d: u64, fuel: u64) -> (out: Option<String>)
    requires
        d > 0,
        r < d,
    ensures
        out is Some <==> frac_expansion(r as nat, d as nat, fuel as nat) is Some,
        out matches Some(s) ==> frac_expansion(r as nat, d as nat, fuel as nat) matches Some(t)
            && s@ == t,
    decreases fuel,
{
    if r == 0 {
        Some(String::new())
    } else if fuel == 0 {
        None
    } else {
        let r10: u128 = (r as u128) * 10;
        let du: u128 = d as u128;
        proof {
            assert(r10 < du * 10 && du * 10 <= u128::MAX) by (nonlinear_arith)
                requires
                    r < d,
                    r10 == r as u128 * 10,
                    du == d as u128,
                    d <= u64::MAX,
            ;
            assert(r10 / du < 10) by (nonlinear_arith)
                requires
                    r10 < du * 10,
                    du > 0,
            ;
            assert(r10 % du < du) by (nonlinear_arith)
                requires
                    du > 0,
            ;
        }
        let dig: u128 = r10 / du;
        let r2: u64 = (r10 % du) as u64;
        match frac_string(r2, d, fuel - 1) {
            Option::None => Option::None,
            Option::Some(t) => {
                let s = String::from_str(digit_str(dig)).concat(t.as_str());
                proof {
                    let e = frac_expansion(r as nat, d as nat, fuel as nat);
                    assert(e matches Some(u) && s@ =~= u);
                }
                Option::Some(s)
            },
        }
    }
}

/// Renders an amount as its canonical exact string.
pub fn format_amount(a: &Rational) -> (out: String)
    requires
        a.wf(),
    ensures
        out@ == spec_format_amount(a.num as int, a.den as int),
        a.spec_is_negative() <==> out@.len() > 0 && out@[0] == '-',
{
    proof {
        reveal_strlit("-");
        reveal_strlit(".");
        reveal_strlit("/");
    }
    let neg = a.num < 0;
    let mag: u64 = if neg {
        (-(a.num)) as u64
    } else {
        a.num as u64
    };
    let d: u64 = a.den as u64;
    let ip: u64 = mag / d;
    let r0: u64 = mag % d;
    let sign: String = if neg {
        String::from_str("-")
    } else {
        String::new()
    };
    let ghost sign_seq: Seq<char> = if a.num < 0 {
        seq!['-']
    } else {
        Seq::empty()
    };
    proof {
        assert(sign@ =~= sign_seq);
        assert(mag as nat == abs(a.num as int));
    }
    match frac_string(r0, d, FRAC_DIGIT_BOUND) {
        Option::Some(f) => {
            let s1 = append_decimal(sign, ip as u128);
            if r0 == 0 {
                proof {
                    crate::text::lemma_dec_digits_shape(ip as nat);
                    assert(s1@ =~= spec_format_amount(a.num as int, a.den as int));
                    assert(s1@ =~= sign_seq + dec_digits(ip as nat));
                    lemma_format_sign(s1@, sign_seq, dec_digits(ip as nat));
                }
                s1
            } else {
                let s2 = s1.concat(".").concat(f.as_str());
                proof {
                    assert(frac_expansion(r0 as nat, d as nat, FRAC_DIGIT_BOUND as nat)
                        matches Some(t) && t.len() > 0);
                    crate::text::lemma_dec_digits_shape(ip as nat);
                    assert(s2@ =~= spec_format_amount(a.num as int, a.den as int));
                    assert((dec_digits(ip as nat) + seq!['.'] + f@)[0] == dec_digits(ip as nat)[0]);
                    assert(s2@ =~= sign_seq + (dec_digits(ip as nat) + seq!['.'] + f@));
                    lemma_format_sign(s2@, sign_seq, dec_digits(ip as nat) + seq!['.'] + f@);
                }
                s2
            }
        },
        Option::None => {
            let s1 = append_decimal(sign, mag as u128);
            let s2 = s1.concat("/");
            let s3 = append_decimal(s2, d as u128);
            proof {
                crate::text::lemma_dec_digits_shape(mag as nat);
                assert(s3@ =~= spec_format_amount(a.num as int, a.den as int));
                assert((dec_digits(mag as nat) + seq!['/'] + dec_digits(d as nat))[0]
                    == dec_digits(mag as nat)[0]);
                assert(s3@ =~= sign_seq + (dec_digits(mag as nat) + seq!['/'] + dec_digits(
                    d as nat,
                )));
                lemma_format_sign(s3@, sign_seq, dec_digits(mag as nat) + seq!['/'] + dec_digits(
                    d as nat,
                ));
            }
            s3
        },
    }
}

/// The rendered string starts with `-` exactly when the sign part is `-`:
/// digits never begin with a minus.
proof fn lemma_format_sign(whole: Seq<char>, sign: Seq<char>, rest: Seq<char>)
    requires
        whole =~= sign + rest,
        sign =~= seq!['-'] || sign =~= Seq::<char>::empty(),
        rest.len() > 0,
        crate::text::is_dec_digit(rest[0]),
    ensures
        (sign =~= seq!['-']) <==> (whole.len() > 0 && whole[0] == '-'),
{
}

} // verus!
