//! Exact rational arithmetic on the numeric values of the language:
//! `Integer` and `Ratio` are closed under the four operations, quotients are
//! kept in lowest terms with a positive denominator, and a ratio whose
//! denominator cancels to one collapses to an integer.
//!
//! A decimal (`Float`) operand promotes the operation to exact decimal
//! arithmetic: the result is the canonical decimal denoting the exact
//! rational outcome, and an outcome no decimal in range denotes exactly
//! (a repeating expansion, or a mantissa beyond the machine word) raises
//! an `"error"` effect rather than rounding.

use vstd::arithmetic::div_mod::lemma_fundamental_div_mod;
use vstd::arithmetic::div_mod::lemma_fundamental_div_mod_converse;
use vstd::arithmetic::div_mod::lemma_small_mod;
use vstd::prelude::*;

use crate::effect::raise;
use crate::order::is_numeric_x;
use crate::order::num_parts;
use crate::order::pow10;
use crate::expression::Environment;
use crate::expression::ExprV;
use crate::expression::Expression;
use crate::expression::Float;
use crate::expression::MAX_FLOAT_SCALE;
use crate::expression::RaisedEffect;

verus! {

broadcast use vstd::std_specs::vec::group_vec_axioms, vstd::seq::group_seq_axioms;

/// The greatest common divisor, by the Euclidean algorithm.
pub open spec fn gcd(a: nat, b: nat) -> nat
    decreases b,
{
    if b == 0 {
        a
    } else {
        gcd(b, a % b)
    }
}

/// The magnitude of an integer.
pub open spec fn abs_of(n: int) -> nat {
    if n >= 0 {
        n as nat
    } else {
        (-n) as nat
    }
}

/// The greatest common divisor divides both arguments and is positive when
/// either argument is.
pub proof fn lemma_gcd_divides(a: nat, b: nat)
    ensures
        gcd(a, b) == 0 ==> a == 0 && b == 0,
        gcd(a, b) >= 1 ==> a % gcd(a, b) == 0 && b % gcd(a, b) == 0,
    decreases b,
{
    if b == 0 {
        if a >= 1 {
            lemma_fundamental_div_mod_converse(a as int, a as int, 1, 0);
            lemma_fundamental_div_mod_converse(0, a as int, 0, 0);
        }
    } else {
        lemma_gcd_divides(b, a % b);
        let g = gcd(b, a % b);
        assert(g >= 1);
        lemma_fundamental_div_mod(a as int, b as int);
        lemma_fundamental_div_mod(b as int, g as int);
        lemma_fundamental_div_mod(a as int % b as int, g as int);
        let qb = b as int / g as int;
        let qr = (a as int % b as int) / g as int;
        let qa = a as int / b as int;
        assert(a as int == g as int * (qb * qa + qr)) by (nonlinear_arith)
            requires
                a as int == b as int * qa + (a as int % b as int),
                b as int == g as int * qb,
                a as int % b as int == g as int * qr,
        ;
        lemma_fundamental_div_mod_converse(a as int, g as int, qb * qa + qr, 0);
    }
}

/// Every common divisor divides the greatest common divisor.
pub proof fn lemma_gcd_greatest(a: nat, b: nat, d: nat)
    requires
        d >= 1,
        a % d == 0,
        b % d == 0,
    ensures
        gcd(a, b) % d == 0,
    decreases b,
{
    if b == 0 {
    } else {
        lemma_fundamental_div_mod(a as int, b as int);
        lemma_fundamental_div_mod(a as int, d as int);
        lemma_fundamental_div_mod(b as int, d as int);
        let qa = a as int / d as int;
        let qb = b as int / d as int;
        let q = a as int / b as int;
        assert(a as int % b as int == d as int * (qa - qb * q)) by (nonlinear_arith)
            requires
                a as int == b as int * q + (a as int % b as int),
                a as int == d as int * qa,
                b as int == d as int * qb,
        ;
        lemma_fundamental_div_mod_converse(
            a as int % b as int,
            d as int,
            qa - qb * q,
            0,
        );
        lemma_gcd_greatest(b, a % b, d);
    }
}

/// Dividing both arguments by their greatest common divisor leaves
/// coprime values.
pub proof fn lemma_gcd_coprime(a: nat, b: nat)
    requires
        b >= 1,
    ensures
        gcd(a / gcd(a, b), b / gcd(a, b)) == 1,
{
    let g = gcd(a, b);
    lemma_gcd_divides(a, b);
    assert(g >= 1) by {
        if g == 0 {
            assert(b == 0);
        }
    }
    let a2 = a / g;
    let b2 = b / g;
    lemma_fundamental_div_mod(a as int, g as int);
    lemma_fundamental_div_mod(b as int, g as int);
    assert(a == g * a2);
    assert(b == g * b2);
    let h = gcd(a2, b2);
    assert(b2 >= 1) by (nonlinear_arith)
        requires
            b == g * b2,
            b >= 1,
            g >= 1,
    ;
    lemma_gcd_divides(a2, b2);
    assert(h >= 1) by {
        if h == 0 {
            assert(b2 == 0);
        }
    }
    lemma_fundamental_div_mod(a2 as int, h as int);
    lemma_fundamental_div_mod(b2 as int, h as int);
    let a3 = a2 as int / h as int;
    let b3 = b2 as int / h as int;
    assert(a as int == (g * h) as int * a3) by (nonlinear_arith)
        requires
            a == g * a2,
            a2 as int == h as int * a3,
    ;
    assert(b as int == (g * h) as int * b3) by (nonlinear_arith)
        requires
            b == g * b2,
            b2 as int == h as int * b3,
    ;
    assert(g * h >= 1) by (nonlinear_arith)
        requires
            g >= 1,
            h >= 1,
    ;
    assert((g * h) as int == g as int * h as int) by (nonlinear_arith);
    assert((g * h) as int >= 1);
    assert(a as int == a3 * ((g * h) as int) + 0) by (nonlinear_arith)
        requires
            a as int == (g * h) as int * a3,
    ;
    assert(b as int == b3 * ((g * h) as int) + 0) by (nonlinear_arith)
        requires
            b as int == (g * h) as int * b3,
    ;
    lemma_fundamental_div_mod_converse(a as int, (g * h) as int, a3, 0);
    lemma_fundamental_div_mod_converse(b as int, (g * h) as int, b3, 0);
    lemma_gcd_greatest(a, b, g * h);
    if h > 1 {
        assert(g < g * h) by (nonlinear_arith)
            requires
                g >= 1,
                h > 1,
        ;
        lemma_small_mod(g, g * h);
    }
}

/// The canonical representation of the rational `n / d`: positive
/// denominator, lowest terms.
pub open spec fn norm_num(n: int, d: int) -> (int, int)
    recommends
        d != 0,
{
    let n2 = if d < 0 {
        -n
    } else {
        n
    };
    let d2 = abs_of(d);
    let g = gcd(abs_of(n2), d2);
    if g == 0 {
        (0, 1)
    } else {
        (
            if n2 >= 0 {
                (abs_of(n2) / g) as int
            } else {
                -((abs_of(n2) / g) as int)
            },
            (d2 / g) as int,
        )
    }
}

/// Whether a canonical rational fits the machine representation.
pub open spec fn fits_num(p: (int, int)) -> bool {
    &&& -0x8000_0000_0000_0000 <= p.0 <= 0x7fff_ffff_ffff_ffff
    &&& 1 <= p.1 <= 0x7fff_ffff_ffff_ffff
}

/// The value a canonical rational denotes: an integer when the denominator
/// is one, a ratio otherwise.
pub open spec fn as_num_expr(p: (int, int)) -> ExprV {
    if p.1 == 1 {
        ExprV::Integer(p.0 as i64)
    } else {
        ExprV::Ratio(p.0 as i64, p.1 as i64)
    }
}

/// The canonical sum of two numeric values.
pub open spec fn add_q(a: ExprV, b: ExprV) -> (int, int) {
    norm_num(a.num_of() * b.den_of() + b.num_of() * a.den_of(), a.den_of() * b.den_of())
}

/// The canonical difference of two numeric values.
pub open spec fn sub_q(a: ExprV, b: ExprV) -> (int, int) {
    norm_num(a.num_of() * b.den_of() - b.num_of() * a.den_of(), a.den_of() * b.den_of())
}

/// The canonical product of two numeric values.
pub open spec fn mul_q(a: ExprV, b: ExprV) -> (int, int) {
    norm_num(a.num_of() * b.num_of(), a.den_of() * b.den_of())
}

/// The canonical quotient of two numeric values.
pub open spec fn div_q(a: ExprV, b: ExprV) -> (int, int) {
    norm_num(a.num_of() * b.den_of(), a.den_of() * b.num_of())
}

/// A numeric value in canonical form: a ratio is in lowest terms, with a
/// denominator of at least two.
pub open spec fn wf_num(v: ExprV) -> bool {
    match v {
        ExprV::Integer(_) => true,
        ExprV::Ratio(n, d) => d >= 2 && gcd(abs_of(n as int), d as nat) == 1,
        _ => false,
    }
}

/// Computes the greatest common divisor.
pub fn gcd_x(a: u128, b: u128) -> (r: u128)
    ensures
        r as nat == gcd(a as nat, b as nat),
    decreases b,
{
    if b == 0 {
        a
    } else {
        gcd_x(b, a % b)
    }
}

/// The shape of the canonical form: magnitudes divided by the greatest
/// common divisor, the sign reapplied.
pub proof fn lemma_norm_structure(n: int, d: int, nm: nat, dm: nat, neg: bool)
    requires
        d != 0,
        nm == abs_of(n),
        dm == abs_of(d),
        neg == ((n < 0) != (d < 0)),
    ensures
        ({
            let g = gcd(nm, dm);
            g >= 1 && norm_num(n, d) == (
                if neg && nm / g != 0 {
                    -((nm / g) as int)
                } else {
                    (nm / g) as int
                },
                (dm / g) as int,
            )
        }),
{
    let g = gcd(nm, dm);
    lemma_gcd_divides(nm, dm);
    if g == 0 {
        assert(dm == 0);
        assert(false);
    }
    let n2 = if d < 0 {
        -n
    } else {
        n
    };
    assert(abs_of(n2) == nm);
    assert(abs_of(d) == dm);
    if n2 >= 0 {
        assert(!neg || nm == 0);
        if nm == 0 {
            lemma_fundamental_div_mod_converse(0, g as int, 0, 0);
            assert(nm / g == 0);
        }
    } else {
        assert(neg && nm > 0);
        lemma_fundamental_div_mod(nm as int, g as int);
        assert(nm / g != 0) by (nonlinear_arith)
            requires
                g >= 1,
                nm >= 1,
                nm as int == g as int * ((nm / g) as int),
        ;
    }
}

/// Builds the value of the rational `n / d` in canonical form, raising an
/// `"error"` effect when it cannot be represented.
pub fn make_num(env: &Environment, n: i128, d: i128) -> (r: Result<Expression, RaisedEffect>)
    requires
        d != 0,
        -0x7fff_ffff_ffff_ffff_ffff_ffff_ffff_ffff <= n
            <= 0x7fff_ffff_ffff_ffff_ffff_ffff_ffff_ffff,
        -0x7fff_ffff_ffff_ffff_ffff_ffff_ffff_ffff <= d
            <= 0x7fff_ffff_ffff_ffff_ffff_ffff_ffff_ffff,
    ensures
        match r {
            Ok(v) => fits_num(norm_num(n as int, d as int)) && v@ == as_num_expr(
                norm_num(n as int, d as int),
            ) && wf_num(v@),
            Err(e) => !fits_num(norm_num(n as int, d as int)) && e@.effect == "error"@,
        },
{
    let neg: bool = (n < 0) != (d < 0);
    let nm: u128 = if n < 0 {
        (-n) as u128
    } else {
        n as u128
    };
    let dm: u128 = if d < 0 {
        (-d) as u128
    } else {
        d as u128
    };
    let g = gcd_x(nm, dm);
    proof {
        lemma_gcd_divides(nm as nat, dm as nat);
        if g == 0 {
            assert(dm == 0);
            assert(false);
        }
    }
    let nq: u128 = nm / g;
    let dq: u128 = dm / g;
    proof {
        lemma_norm_structure(n as int, d as int, nm as nat, dm as nat, neg);
        lemma_gcd_coprime(nm as nat, dm as nat);
        lemma_fundamental_div_mod(dm as int, g as int);
        assert(dq >= 1) by (nonlinear_arith)
            requires
                dm as int == g as int * dq as int,
                dm >= 1,
                g >= 1,
        ;
    }
    if dq > 0x7fff_ffff_ffff_ffff {
        return Err(raise(env, "error", "number does not fit the machine range"));
    }
    if neg {
        if nq > 0x8000_0000_0000_0000 {
            return Err(raise(env, "error", "number does not fit the machine range"));
        }
    } else {
        if nq > 0x7fff_ffff_ffff_ffff {
            return Err(raise(env, "error", "number does not fit the machine range"));
        }
    }
    let num: i64 = if neg {
        if nq == 0x8000_0000_0000_0000 {
            -0x7fff_ffff_ffff_ffff - 1
        } else {
            -((nq as u64) as i64)
        }
    } else {
        (nq as u64) as i64
    };
    let den: i64 = dq as i64;
    proof {
        if nm as nat / g as nat == 0 {
            assert(num == 0);
        }
    }
    if den == 1 {
        Ok(Expression::Integer(num))
    } else {
        Ok(Expression::Ratio(num, den))
    }
}


/// A numerator crossed with a positive denominator stays well inside the
/// wide intermediate range.
proof fn lemma_cross_bound(x: int, d: int)
    requires
        -0x8000_0000_0000_0000 <= x <= 0x7fff_ffff_ffff_ffff,
        1 <= d <= 0x7fff_ffff_ffff_ffff,
    ensures
        -0x3fff_ffff_ffff_ffff_8000_0000_0000_0000 <= x * d
            <= 0x3fff_ffff_ffff_ffff_8000_0000_0000_0000,
{
    assert(-0x3fff_ffff_ffff_ffff_8000_0000_0000_0000 <= x * d
        <= 0x3fff_ffff_ffff_ffff_8000_0000_0000_0000) by (nonlinear_arith)
        requires
            -0x8000_0000_0000_0000 <= x <= 0x7fff_ffff_ffff_ffff,
            1 <= d <= 0x7fff_ffff_ffff_ffff,
    ;
}

/// The product of two machine words stays strictly inside the wide range.
proof fn lemma_word_prod_bound(x: int, y: int)
    requires
        -0x8000_0000_0000_0000 <= x <= 0x7fff_ffff_ffff_ffff,
        -0x8000_0000_0000_0000 <= y <= 0x7fff_ffff_ffff_ffff,
    ensures
        -0x4000_0000_0000_0000_0000_0000_0000_0000 <= x * y
            <= 0x4000_0000_0000_0000_0000_0000_0000_0000,
{
    assert(-0x4000_0000_0000_0000_0000_0000_0000_0000 <= x * y
        <= 0x4000_0000_0000_0000_0000_0000_0000_0000) by (nonlinear_arith)
        requires
            -0x8000_0000_0000_0000 <= x <= 0x7fff_ffff_ffff_ffff,
            -0x8000_0000_0000_0000 <= y <= 0x7fff_ffff_ffff_ffff,
    ;
}

/// The product of two positive denominators is a positive denominator.
proof fn lemma_den_bound(x: int, d: int)
    requires
        1 <= x <= 0x7fff_ffff_ffff_ffff,
        1 <= d <= 0x7fff_ffff_ffff_ffff,
    ensures
        1 <= x * d <= 0x3fff_ffff_ffff_ffff_8000_0000_0000_0000,
{
    assert(1 <= x * d <= 0x3fff_ffff_ffff_ffff_8000_0000_0000_0000) by (nonlinear_arith)
        requires
            1 <= x <= 0x7fff_ffff_ffff_ffff,
            1 <= d <= 0x7fff_ffff_ffff_ffff,
    ;
}

/// Whether a value takes part in mixed arithmetic: a plain numeric or a
/// canonical decimal.
pub open spec fn arith_num(v: ExprV) -> bool {
    v.is_numeric() || is_dec_num(v)
}

/// The sum of two numeric values, in canonical form; with a decimal
/// operand, the decimal denoting the exact sum; a `"type"` effect on a
/// non-numeric argument, an `"error"` effect when the result does not fit.
pub fn num_add(env: &Environment, a: &Expression, b: &Expression) -> (r: Result<
    Expression,
    RaisedEffect,
>)
    ensures
        a@.is_numeric() && b@.is_numeric() ==> match r {
            Ok(v) => fits_num(add_q(a@, b@)) && v@ == as_num_expr(add_q(a@, b@)) && wf_num(v@),
            Err(e) => !fits_num(add_q(a@, b@)) && e@.effect == "error"@,
        },
        (arith_num(a@) && arith_num(b@) && !(a@.is_numeric() && b@.is_numeric())) ==> match r {
            Ok(v) => float_repr(dec_add_q(a@, b@).0, dec_add_q(a@, b@).1) matches Some(f) && v@
                == ExprV::Float(f),
            Err(e) => float_repr(dec_add_q(a@, b@).0, dec_add_q(a@, b@).1) is None && e@.effect
                == "error"@,
        },
        !(arith_num(a@) && arith_num(b@)) ==> match r {
            Ok(_) => false,
            Err(e) => e@.effect == "type"@,
        },
{
    if is_numeric_x(a) && is_numeric_x(b) {
        let (an, ad) = num_parts(a);
        let (bn, bd) = num_parts(b);
        proof {
            lemma_cross_bound(an as int, bd as int);
            lemma_cross_bound(bn as int, ad as int);
            lemma_den_bound(ad as int, bd as int);
        }
        let n: i128 = (an as i128) * (bd as i128) + (bn as i128) * (ad as i128);
        let d: i128 = (ad as i128) * (bd as i128);
        make_num(env, n, d)
    } else if (is_numeric_x(a) || is_dec_x(a)) && (is_numeric_x(b) || is_dec_x(b)) {
        let (an, ad) = dec_parts(a);
        let (bn, bd) = dec_parts(b);
        proof {
            lemma_cross_bound(an as int, bd as int);
            lemma_cross_bound(bn as int, ad as int);
            lemma_den_bound(ad as int, bd as int);
        }
        let n: i128 = (an as i128) * (bd as i128) + (bn as i128) * (ad as i128);
        let d: i128 = (ad as i128) * (bd as i128);
        make_float(env, n, d)
    } else {
        Err(raise(env, "type", "expected a number"))
    }
}

/// The difference of two numeric values, in canonical form; with a decimal
/// operand, the decimal denoting the exact difference.
pub fn num_sub(env: &Environment, a: &Expression, b: &Expression) -> (r: Result<
    Expression,
    RaisedEffect,
>)
    ensures
        a@.is_numeric() && b@.is_numeric() ==> match r {
            Ok(v) => fits_num(sub_q(a@, b@)) && v@ == as_num_expr(sub_q(a@, b@)) && wf_num(v@),
            Err(e) => !fits_num(sub_q(a@, b@)) && e@.effect == "error"@,
        },
        (arith_num(a@) && arith_num(b@) && !(a@.is_numeric() && b@.is_numeric())) ==> match r {
            Ok(v) => float_repr(dec_sub_q(a@, b@).0, dec_sub_q(a@, b@).1) matches Some(f) && v@
                == ExprV::Float(f),
            Err(e) => float_repr(dec_sub_q(a@, b@).0, dec_sub_q(a@, b@).1) is None && e@.effect
                == "error"@,
        },
        !(arith_num(a@) && arith_num(b@)) ==> match r {
            Ok(_) => false,
            Err(e) => e@.effect == "type"@,
        },
{
    if is_numeric_x(a) && is_numeric_x(b) {
        let (an, ad) = num_parts(a);
        let (bn, bd) = num_parts(b);
        proof {
            lemma_cross_bound(an as int, bd as int);
            lemma_cross_bound(bn as int, ad as int);
            lemma_den_bound(ad as int, bd as int);
        }
        let n: i128 = (an as i128) * (bd as i128) - (bn as i128) * (ad as i128);
        let d: i128 = (ad as i128) * (bd as i128);
        make_num(env, n, d)
    } else if (is_numeric_x(a) || is_dec_x(a)) && (is_numeric_x(b) || is_dec_x(b)) {
        let (an, ad) = dec_parts(a);
        let (bn, bd) = dec_parts(b);
        proof {
            lemma_cross_bound(an as int, bd as int);
            lemma_cross_bound(bn as int, ad as int);
            lemma_den_bound(ad as int, bd as int);
        }
        let n: i128 = (an as i128) * (bd as i128) - (bn as i128) * (ad as i128);
        let d: i128 = (ad as i128) * (bd as i128);
        make_float(env, n, d)
    } else {
        Err(raise(env, "type", "expected a number"))
    }
}

/// The product of two numeric values, in canonical form; with a decimal
/// operand, the decimal denoting the exact product.
pub fn num_mul(env: &Environment, a: &Expression, b: &Expression) -> (r: Result<
    Expression,
    RaisedEffect,
>)
    ensures
        a@.is_numeric() && b@.is_numeric() ==> match r {
            Ok(v) => fits_num(mul_q(a@, b@)) && v@ == as_num_expr(mul_q(a@, b@)) && wf_num(v@),
            Err(e) => !fits_num(mul_q(a@, b@)) && e@.effect == "error"@,
        },
        (arith_num(a@) && arith_num(b@) && !(a@.is_numeric() && b@.is_numeric())) ==> match r {
            Ok(v) => float_repr(dec_mul_q(a@, b@).0, dec_mul_q(a@, b@).1) matches Some(f) && v@
                == ExprV::Float(f),
            Err(e) => float_repr(dec_mul_q(a@, b@).0, dec_mul_q(a@, b@).1) is None && e@.effect
                == "error"@,
        },
        !(arith_num(a@) && arith_num(b@)) ==> match r {
            Ok(_) => false,
            Err(e) => e@.effect == "type"@,
        },
{
    if is_numeric_x(a) && is_numeric_x(b) {
        let (an, ad) = num_parts(a);
        let (bn, bd) = num_parts(b);
        proof {
            lemma_word_prod_bound(an as int, bn as int);
            lemma_den_bound(ad as int, bd as int);
        }
        let n: i128 = (an as i128) * (bn as i128);
        let d: i128 = (ad as i128) * (bd as i128);
        make_num(env, n, d)
    } else if (is_numeric_x(a) || is_dec_x(a)) && (is_numeric_x(b) || is_dec_x(b)) {
        let (an, ad) = dec_parts(a);
        let (bn, bd) = dec_parts(b);
        proof {
            lemma_word_prod_bound(an as int, bn as int);
            lemma_den_bound(ad as int, bd as int);
        }
        let n: i128 = (an as i128) * (bn as i128);
        let d: i128 = (ad as i128) * (bd as i128);
        make_float(env, n, d)
    } else {
        Err(raise(env, "type", "expected a number"))
    }
}

/// The quotient of two numeric values, in canonical form; with a decimal
/// operand, the decimal denoting the exact quotient; dividing by zero
/// raises an `"error"` effect.
pub fn num_div(env: &Environment, a: &Expression, b: &Expression) -> (r: Result<
    Expression,
    RaisedEffect,
>)
    ensures
        a@.is_numeric() && b@.is_numeric() && b@.num_of() != 0 ==> match r {
            Ok(v) => fits_num(div_q(a@, b@)) && v@ == as_num_expr(div_q(a@, b@)) && wf_num(v@),
            Err(e) => !fits_num(div_q(a@, b@)) && e@.effect == "error"@,
        },
        a@.is_numeric() && b@.is_numeric() && b@.num_of() == 0 ==> match r {
            Ok(_) => false,
            Err(e) => e@.effect == "error"@,
        },
        (arith_num(a@) && arith_num(b@) && !(a@.is_numeric() && b@.is_numeric()) && dec_num_of(b@)
            != 0) ==> match r {
            Ok(v) => float_repr(dec_div_q(a@, b@).0, dec_div_q(a@, b@).1) matches Some(f) && v@
                == ExprV::Float(f),
            Err(e) => float_repr(dec_div_q(a@, b@).0, dec_div_q(a@, b@).1) is None && e@.effect
                == "error"@,
        },
        (arith_num(a@) && arith_num(b@) && !(a@.is_numeric() && b@.is_numeric()) && dec_num_of(b@)
            == 0) ==> match r {
            Ok(_) => false,
            Err(e) => e@.effect == "error"@,
        },
        !(arith_num(a@) && arith_num(b@)) ==> match r {
            Ok(_) => false,
            Err(e) => e@.effect == "type"@,
        },
{
    if is_numeric_x(a) && is_numeric_x(b) {
        let (an, ad) = num_parts(a);
        let (bn, bd) = num_parts(b);
        if bn == 0 {
            return Err(crate::effect::error(env, "division by zero"));
        }
        proof {
            lemma_cross_bound(an as int, bd as int);
            lemma_cross_bound(bn as int, ad as int);
            assert((ad as int) * (bn as int) != 0) by (nonlinear_arith)
                requires
                    ad >= 1,
                    bn != 0,
            ;
            lemma_word_prod_bound(ad as int, bn as int);
        }
        let n: i128 = (an as i128) * (bd as i128);
        let d: i128 = (ad as i128) * (bn as i128);
        make_num(env, n, d)
    } else if (is_numeric_x(a) || is_dec_x(a)) && (is_numeric_x(b) || is_dec_x(b)) {
        let (an, ad) = dec_parts(a);
        let (bn, bd) = dec_parts(b);
        if bn == 0 {
            return Err(crate::effect::error(env, "division by zero"));
        }
        proof {
            lemma_cross_bound(an as int, bd as int);
            lemma_cross_bound(bn as int, ad as int);
            assert((ad as int) * (bn as int) != 0) by (nonlinear_arith)
                requires
                    ad >= 1,
                    bn != 0,
            ;
            lemma_word_prod_bound(ad as int, bn as int);
        }
        let n: i128 = (an as i128) * (bd as i128);
        let d: i128 = (ad as i128) * (bn as i128);
        make_float(env, n, d)
    } else {
        Err(raise(env, "type", "expected a number"))
    }
}

/// A value that takes part in mixed arithmetic beside the plain numerics:
/// a canonical decimal.
pub open spec fn is_dec_num(v: ExprV) -> bool {
    v matches ExprV::Float(f) && f.is_canonical()
}

/// The numerator of a numeric or decimal value: a decimal's mantissa.
pub open spec fn dec_num_of(v: ExprV) -> int {
    match v {
        ExprV::Float(f) => f.mantissa as int,
        _ => v.num_of(),
    }
}

/// The denominator of a numeric or decimal value: a decimal's power of ten.
pub open spec fn dec_den_of(v: ExprV) -> int {
    match v {
        ExprV::Float(f) => pow10(f.scale as nat),
        _ => v.den_of(),
    }
}

/// The least scale at or above `s`, within the decimal range, whose power
/// of ten the denominator divides.
pub open spec fn scale_search(d: int, s: nat) -> Option<nat>
    decreases MAX_FLOAT_SCALE + 1 - s,
{
    if s > MAX_FLOAT_SCALE as nat {
        None
    } else if pow10(s) % d == 0 {
        Some(s)
    } else {
        scale_search(d, s + 1)
    }
}

/// The decimal denoting the reduced rational `n / d`, when one fits: the
/// least scale whose power of ten `d` divides, and the mantissa scaled
/// accordingly, inside the machine range.
pub open spec fn float_repr(n: int, d: int) -> Option<Float>
    recommends
        d >= 1,
{
    match scale_search(d, 1) {
        Some(s) => {
            let m = n * (pow10(s) / d);
            if -0x8000_0000_0000_0000 <= m <= 0x7fff_ffff_ffff_ffff {
                Some(Float { mantissa: m as i64, scale: s as u32 })
            } else {
                None
            }
        },
        None => None,
    }
}

/// The canonical sum of two mixed numeric values, as a rational.
pub open spec fn dec_add_q(a: ExprV, b: ExprV) -> (int, int) {
    norm_num(
        dec_num_of(a) * dec_den_of(b) + dec_num_of(b) * dec_den_of(a),
        dec_den_of(a) * dec_den_of(b),
    )
}

/// The canonical difference of two mixed numeric values.
pub open spec fn dec_sub_q(a: ExprV, b: ExprV) -> (int, int) {
    norm_num(
        dec_num_of(a) * dec_den_of(b) - dec_num_of(b) * dec_den_of(a),
        dec_den_of(a) * dec_den_of(b),
    )
}

/// The canonical product of two mixed numeric values.
pub open spec fn dec_mul_q(a: ExprV, b: ExprV) -> (int, int) {
    norm_num(dec_num_of(a) * dec_num_of(b), dec_den_of(a) * dec_den_of(b))
}

/// The canonical quotient of two mixed numeric values.
pub open spec fn dec_div_q(a: ExprV, b: ExprV) -> (int, int) {
    norm_num(dec_num_of(a) * dec_den_of(b), dec_den_of(a) * dec_num_of(b))
}

/// Powers of ten are positive.
proof fn lemma_pow10_pos(s: nat)
    ensures
        pow10(s) >= 1,
    decreases s,
{
    if s > 0 {
        lemma_pow10_pos((s - 1) as nat);
    }
}

/// Powers of ten grow with the exponent.
proof fn lemma_pow10_mono(a: nat, b: nat)
    requires
        a <= b,
    ensures
        pow10(a) <= pow10(b),
    decreases b,
{
    if a < b {
        lemma_pow10_mono(a, (b - 1) as nat);
        lemma_pow10_pos((b - 1) as nat);
    }
}

/// The largest power of ten of the decimal range, written out.
proof fn lemma_pow10_18()
    ensures
        pow10(18) == 1_000_000_000_000_000_000,
{
    assert(pow10(0) == 1);
    assert(pow10(1) == 10);
    assert(pow10(2) == 100);
    assert(pow10(3) == 1_000);
    assert(pow10(4) == 10_000);
    assert(pow10(5) == 100_000);
    assert(pow10(6) == 1_000_000);
    assert(pow10(7) == 10_000_000);
    assert(pow10(8) == 100_000_000);
    assert(pow10(9) == 1_000_000_000);
    assert(pow10(10) == 10_000_000_000);
    assert(pow10(11) == 100_000_000_000);
    assert(pow10(12) == 1_000_000_000_000);
    assert(pow10(13) == 10_000_000_000_000);
    assert(pow10(14) == 100_000_000_000_000);
    assert(pow10(15) == 1_000_000_000_000_000);
    assert(pow10(16) == 10_000_000_000_000_000);
    assert(pow10(17) == 100_000_000_000_000_000);
    assert(pow10(18) == 1_000_000_000_000_000_000);
}

/// Powers of ten stay within the decimal range's bound.
proof fn lemma_pow10_bound(s: nat)
    requires
        s <= MAX_FLOAT_SCALE as nat,
    ensures
        1 <= pow10(s) <= 1_000_000_000_000_000_000,
{
    lemma_pow10_pos(s);
    lemma_pow10_mono(s, MAX_FLOAT_SCALE as nat);
    lemma_pow10_18();
}

/// Computes a power of ten.
fn pow10_x(s: u32) -> (r: i64)
    requires
        s <= MAX_FLOAT_SCALE,
    ensures
        r as int == pow10(s as nat),
        1 <= r,
{
    proof {
        lemma_pow10_bound(s as nat);
    }
    let mut r: i64 = 1;
    let mut i: u32 = 0;
    while i < s
        invariant
            i <= s,
            s <= MAX_FLOAT_SCALE,
            r as int == pow10(i as nat),
        decreases s - i,
    {
        proof {
            lemma_pow10_bound(i as nat);
            lemma_pow10_bound((i + 1) as nat);
        }
        r = r * 10;
        i = i + 1;
    }
    r
}

/// Exposes the mixed-numeric test to executable code.
pub fn is_dec_x(e: &Expression) -> (r: bool)
    ensures
        r == is_dec_num(e@),
{
    match e {
        Expression::Float(f) => f.scale >= 1 && f.scale <= MAX_FLOAT_SCALE && (f.scale == 1
            || f.mantissa % 10 != 0),
        _ => false,
    }
}

/// The mantissa and denominator of a numeric or decimal value.
fn dec_parts(e: &Expression) -> (r: (i64, i64))
    requires
        e@.is_numeric() || is_dec_num(e@),
    ensures
        r.0 as int == dec_num_of(e@),
        r.1 as int == dec_den_of(e@),
        1 <= r.1 <= 0x7fff_ffff_ffff_ffff,
{
    match e {
        Expression::Float(f) => {
            proof {
                lemma_pow10_bound(f.scale as nat);
            }
            (f.mantissa, pow10_x(f.scale))
        },
        other => num_parts(other),
    }
}

/// Below every power of ten in range, nothing divides them.
proof fn lemma_scale_search_none(d: int, s: nat)
    requires
        d > 1_000_000_000_000_000_000,
    ensures
        scale_search(d, s) is None,
    decreases MAX_FLOAT_SCALE + 1 - s,
{
    if s <= MAX_FLOAT_SCALE as nat {
        lemma_pow10_bound(s);
        lemma_small_mod(pow10(s) as nat, d as nat);
        lemma_scale_search_none(d, s + 1);
    }
}

/// Builds the decimal denoting the rational `n / d` exactly, raising an
/// `"error"` effect when no decimal in range does.
pub fn make_float(env: &Environment, n: i128, d: i128) -> (r: Result<Expression, RaisedEffect>)
    requires
        d != 0,
        -0x7fff_ffff_ffff_ffff_ffff_ffff_ffff_ffff <= n
            <= 0x7fff_ffff_ffff_ffff_ffff_ffff_ffff_ffff,
        -0x7fff_ffff_ffff_ffff_ffff_ffff_ffff_ffff <= d
            <= 0x7fff_ffff_ffff_ffff_ffff_ffff_ffff_ffff,
    ensures
        ({
            let q = norm_num(n as int, d as int);
            match r {
                Ok(v) => float_repr(q.0, q.1) matches Some(f) && v@ == ExprV::Float(f),
                Err(e) => float_repr(q.0, q.1) is None && e@.effect == "error"@,
            }
        }),
{
    let neg: bool = (n < 0) != (d < 0);
    let nm: u128 = if n < 0 {
        (-n) as u128
    } else {
        n as u128
    };
    let dm: u128 = if d < 0 {
        (-d) as u128
    } else {
        d as u128
    };
    let g = gcd_x(nm, dm);
    proof {
        lemma_gcd_divides(nm as nat, dm as nat);
        if g == 0 {
            assert(dm == 0);
            assert(false);
        }
    }
    let nq: u128 = nm / g;
    let dq: u128 = dm / g;
    let ghost q = norm_num(n as int, d as int);
    proof {
        lemma_norm_structure(n as int, d as int, nm as nat, dm as nat, neg);
        lemma_fundamental_div_mod(dm as int, g as int);
        assert(dq >= 1) by (nonlinear_arith)
            requires
                dm as int == g as int * dq as int,
                dm >= 1,
                g >= 1,
        ;
        assert(q.1 == dq as int);
        assert(q.0 == (if neg && nq != 0 {
            -(nq as int)
        } else {
            nq as int
        }));
    }
    if dq > 1_000_000_000_000_000_000 {
        proof {
            lemma_scale_search_none(dq as int, 1);
        }
        return Err(raise(env, "error", "no decimal in range denotes the value"));
    }
    let dqi: i64 = dq as i64;
    let mut s: u32 = 1;
    while s <= MAX_FLOAT_SCALE
        invariant
            1 <= s <= MAX_FLOAT_SCALE + 1,
            1 <= dqi,
            dqi as int == q.1,
            scale_search(q.1, 1) == scale_search(q.1, s as nat),
            q == norm_num(n as int, d as int),
            q.0 == (if neg && nq != 0 {
                -(nq as int)
            } else {
                nq as int
            }),
            nq as int == abs_of(q.0),
        decreases MAX_FLOAT_SCALE + 1 - s,
    {
        let p = pow10_x(s);
        if p % dqi == 0 {
            proof {
                assert(pow10(s as nat) % q.1 == 0);
                assert(scale_search(q.1, s as nat) == Some(s as nat));
            }
            let scaled: u128 = (p / dqi) as u128;
            proof {
                lemma_fundamental_div_mod(p as int, dqi as int);
                assert(pow10(s as nat) / q.1 == scaled as int);
                lemma_pow10_bound(s as nat);
                assert(1 <= scaled as int <= 1_000_000_000_000_000_000) by (nonlinear_arith)
                    requires
                        dqi as int * scaled as int == p as int,
                        1 <= dqi as int,
                        1 <= p as int <= 1_000_000_000_000_000_000,
                ;
            }
            if nq > 0x8000_0000_0000_0000 {
                proof {
                    let m = q.0 * (pow10(s as nat) / q.1);
                    assert(m > 0x7fff_ffff_ffff_ffff || m < -0x8000_0000_0000_0000)
                        by (nonlinear_arith)
                        requires
                            m == q.0 * (scaled as int),
                            1 <= scaled as int,
                            abs_of(q.0) == nq as int,
                            nq as int > 0x8000_0000_0000_0000,
                    ;
                }
                return Err(raise(env, "error", "no decimal in range denotes the value"));
            }
            proof {
                assert(nq * scaled <= 0xffff_ffff_ffff_ffff_ffff_ffff_ffff_ffff)
                    by (nonlinear_arith)
                    requires
                        nq <= 0x8000_0000_0000_0000,
                        scaled <= 1_000_000_000_000_000_000,
                ;
            }
            let mu: u128 = nq * scaled;
            proof {
                assert(mu as int == nq as int * scaled as int);
                if neg && nq != 0 {
                    assert(q.0 * (pow10(s as nat) / q.1) == -(mu as int)) by (nonlinear_arith)
                        requires
                            q.0 == -(nq as int),
                            pow10(s as nat) / q.1 == scaled as int,
                            mu as int == nq as int * scaled as int,
                    ;
                } else {
                    assert(q.0 * (pow10(s as nat) / q.1) == mu as int) by (nonlinear_arith)
                        requires
                            q.0 == nq as int,
                            pow10(s as nat) / q.1 == scaled as int,
                            mu as int == nq as int * scaled as int,
                    ;
                }
            }
            if neg {
                if mu > 0x8000_0000_0000_0000 {
                    return Err(raise(env, "error", "no decimal in range denotes the value"));
                }
                let m: i64 = if mu == 0x8000_0000_0000_0000 {
                    -0x7fff_ffff_ffff_ffff - 1
                } else {
                    -((mu as u64) as i64)
                };
                proof {
                    assert(m as int == -(mu as int));
                    if nq == 0 {
                        assert(q.0 * (pow10(s as nat) / q.1) == 0) by (nonlinear_arith)
                            requires
                                q.0 == 0,
                        ;
                        assert(mu as int == 0) by (nonlinear_arith)
                            requires
                                mu as int == nq as int * scaled as int,
                                nq == 0,
                        ;
                    }
                    assert(q.0 * (pow10(s as nat) / q.1) == m as int);
                    assert(float_repr(q.0, q.1) == Some(Float { mantissa: m, scale: s }));
                }
                return Ok(Expression::Float(Float { mantissa: m, scale: s }));
            } else {
                if mu > 0x7fff_ffff_ffff_ffff {
                    return Err(raise(env, "error", "no decimal in range denotes the value"));
                }
                return Ok(Expression::Float(Float { mantissa: mu as i64, scale: s }));
            }
        }
        proof {
            assert(pow10(s as nat) % q.1 != 0);
        }
        s = s + 1;
    }
    Err(raise(env, "error", "no decimal in range denotes the value"))
}

/// The search finds the least dividing scale: a success at `t` bounds it.
proof fn lemma_scale_search_finds(d: int, t: nat)
    requires
        1 <= d,
        1 <= t <= MAX_FLOAT_SCALE as nat,
        pow10(t) % d == 0,
    ensures
        scale_search(d, 1) matches Some(s) && 1 <= s <= t && pow10(s as nat) % d == 0 && forall|
            u: nat,
        | 1 <= u < s ==> pow10(u) % d != 0,
{
    lemma_scale_search_from(d, t, 1);
}

/// The search from `u` finds the least dividing scale at or above `u`.
proof fn lemma_scale_search_from(d: int, t: nat, u: nat)
    requires
        1 <= d,
        u <= t <= MAX_FLOAT_SCALE as nat,
        pow10(t) % d == 0,
    ensures
        scale_search(d, u) matches Some(s) && u <= s <= t && pow10(s as nat) % d == 0 && forall|
            w: nat,
        | u <= w < s ==> pow10(w) % d != 0,
    decreases t - u,
{
    if pow10(u) % d == 0 {
        assert(scale_search(d, u) == Some(u));
    } else {
        assert(u < t);
        lemma_scale_search_from(d, t, u + 1);
        assert(scale_search(d, u) == scale_search(d, u + 1));
    }
}

/// A canonical decimal is the decimal representation of its own value.
pub proof fn lemma_float_repr_canonical(f: Float)
    requires
        f.is_canonical(),
    ensures
        ({
            let q = norm_num(f.mantissa as int, pow10(f.scale as nat));
            float_repr(q.0, q.1) == Some(f)
        }),
{
    let m = f.mantissa as int;
    let s = f.scale as nat;
    let p = pow10(s);
    lemma_pow10_bound(s);
    let am = abs_of(m);
    let g = gcd(am, p as nat);
    lemma_gcd_divides(am, p as nat);
    assert(g >= 1) by {
        if g == 0 {
            assert(p as nat == 0);
        }
    }
    let q = norm_num(m, p);
    lemma_norm_structure(m, p, am, p as nat, m < 0);
    assert(q.1 == (p as nat / g) as int);
    lemma_fundamental_div_mod(p as int, g as int);
    lemma_fundamental_div_mod(am as int, g as int);
    let q1 = q.1;
    assert(p == g as int * q1);
    assert(q1 >= 1) by (nonlinear_arith)
        requires
            p == g as int * q1,
            p >= 1,
            g >= 1,
    ;
    // The target scale divides: p % q1 == 0.
    assert(p == (g as int) * q1 + 0);
    assert(p % q1 == 0) by {
        lemma_fundamental_div_mod_converse(p, q1, g as int, 0);
    }
    lemma_scale_search_finds(q1, s);
    let s2 = scale_search(q1, 1)->Some_0;
    assert(pow10(s2) % q1 == 0);
    lemma_fundamental_div_mod(pow10(s2), q1);
    let c = pow10(s2) / q1;
    assert(pow10(s2) == q1 * c);
    lemma_pow10_pos(s2);
    assert(c >= 1) by (nonlinear_arith)
        requires
            pow10(s2) == q1 * c,
            pow10(s2) >= 1,
            q1 >= 1,
    ;
    // Cross multiplication: q.0 * p == m * q1.
    let aq = (am / g) as int;
    assert(am as int == g as int * aq);
    assert(q.0 == (if m < 0 && am / g != 0 {
        -aq
    } else {
        aq
    }));
    assert(q.0 * p == m * q1) by (nonlinear_arith)
        requires
            p == g as int * q1,
            am as int == g as int * aq,
            am == abs_of(m),
            q.0 == (if m < 0 && aq != 0 {
                -aq
            } else {
                aq
            }),
            m < 0 ==> am as int == -m,
            m >= 0 ==> am as int == m,
            g >= 1,
            q1 >= 1,
    ;
    // The found mantissa scales back to m.
    let mr = q.0 * c;
    if s2 < s {
        let k = pow10((s - s2) as nat);
        assert(pow10(s) == pow10(s2) * k) by {
            lemma_pow10_split(s2, (s - s2) as nat);
        }
        lemma_pow10_pos((s - s2) as nat);
        assert(k % 10 == 0) by {
            assert(k == 10 * pow10((s - s2 - 1) as nat));
            lemma_pow10_pos((s - s2 - 1) as nat);
            lemma_fundamental_div_mod_converse(k, 10, pow10((s - s2 - 1) as nat), 0);
        }
        assert(mr * k == m) by (nonlinear_arith)
            requires
                q.0 * p == m * q1,
                p == pow10(s2) * k,
                pow10(s2) == q1 * c,
                mr == q.0 * c,
                q1 >= 1,
        ;
        assert(m % 10 == 0) by {
            lemma_fundamental_div_mod(k, 10);
            assert(m == 10 * (mr * (k / 10)) + 0) by (nonlinear_arith)
                requires
                    mr * k == m,
                    k == 10 * (k / 10) + 0,
            ;
            lemma_fundamental_div_mod_converse(m, 10, mr * (k / 10), 0);
        }
        assert(s >= 2) by {
            assert(s2 >= 1);
        }
        assert(false);
    }
    assert(s2 == s);
    // With equal scales the mantissa is m itself.
    assert(c * q1 == p);
    assert(mr == m) by (nonlinear_arith)
        requires
            q.0 * p == m * q1,
            p == q1 * c,
            mr == q.0 * c,
            q1 >= 1,
    ;
    assert(-0x8000_0000_0000_0000 <= mr <= 0x7fff_ffff_ffff_ffff);
    assert(float_repr(q.0, q.1) == Some(Float { mantissa: mr as i64, scale: s2 as u32 }));
}

/// Powers of ten multiply by adding exponents.
proof fn lemma_pow10_split(a: nat, b: nat)
    ensures
        pow10(a + b) == pow10(a) * pow10(b),
    decreases b,
{
    if b == 0 {
        assert(pow10(a + 0) == pow10(a) * 1);
    } else {
        lemma_pow10_split(a, (b - 1) as nat);
        assert(pow10(a + b) == 10 * pow10((a + b - 1) as nat));
        assert(pow10(a + b) == pow10(a) * pow10(b)) by (nonlinear_arith)
            requires
                pow10(a + b) == 10 * pow10((a + b - 1) as nat),
                pow10((a + b - 1) as nat) == pow10(a) * pow10((b - 1) as nat),
                pow10(b) == 10 * pow10((b - 1) as nat),
        ;
    }
}

/// Adding integer zero leaves a canonical decimal unchanged, and
/// multiplying it by integer one does too: the decimal identities.
pub proof fn lemma_dec_identities(f: Float)
    requires
        f.is_canonical(),
    ensures
        float_repr(
            dec_add_q(ExprV::Float(f), ExprV::Integer(0)).0,
            dec_add_q(ExprV::Float(f), ExprV::Integer(0)).1,
        ) == Some(f),
        float_repr(
            dec_mul_q(ExprV::Float(f), ExprV::Integer(1)).0,
            dec_mul_q(ExprV::Float(f), ExprV::Integer(1)).1,
        ) == Some(f),
{
    let a = ExprV::Float(f);
    let z = ExprV::Integer(0);
    let o = ExprV::Integer(1);
    let m = f.mantissa as int;
    let p = pow10(f.scale as nat);
    assert(dec_num_of(a) == m && dec_den_of(a) == p);
    assert(dec_num_of(z) == 0 && dec_den_of(z) == 1);
    assert(dec_num_of(o) == 1 && dec_den_of(o) == 1);
    assert(m * 1 + 0 * p == m) by (nonlinear_arith);
    assert(p * 1 == p);
    assert(m * 1 == m);
    assert(dec_add_q(a, z) == norm_num(m, p));
    assert(dec_mul_q(a, o) == norm_num(m, p));
    lemma_float_repr_canonical(f);
}

/// One divides everything exactly.
proof fn lemma_div_by_one_exact(x: nat)
    ensures
        x % 1 == 0,
        x / 1 == x,
{
    lemma_fundamental_div_mod_converse(x as int, 1, x as int, 0);
}

/// Everything is coprime to one.
proof fn lemma_gcd_one(x: nat)
    ensures
        gcd(x, 1) == 1,
{
    lemma_div_by_one_exact(x);
    assert(gcd(x, 1) == gcd(1, 0));
}

/// A fraction already in lowest terms is its own canonical form.
proof fn lemma_norm_of_reduced(n: int, d: int)
    requires
        1 <= d,
        gcd(abs_of(n), d as nat) == 1,
    ensures
        norm_num(n, d) == (n, d),
{
    lemma_div_by_one_exact(abs_of(n));
    lemma_div_by_one_exact(d as nat);
}

/// Adding integer zero leaves a canonical numeric value unchanged.
pub proof fn lemma_add_zero(a: ExprV)
    requires
        a.is_numeric(),
        wf_num(a),
    ensures
        add_q(a, ExprV::Integer(0)) == (a.num_of(), a.den_of()),
        as_num_expr(add_q(a, ExprV::Integer(0))) == a,
{
    let z = ExprV::Integer(0);
    assert(a.num_of() * z.den_of() + z.num_of() * a.den_of() == a.num_of()) by (nonlinear_arith)
        requires
            z.num_of() == 0,
            z.den_of() == 1,
    ;
    match a {
        ExprV::Integer(i) => {
            lemma_gcd_one(abs_of(i as int));
            lemma_norm_of_reduced(i as int, 1);
        },
        ExprV::Ratio(n, d) => {
            lemma_norm_of_reduced(n as int, d as int);
        },
        _ => {},
    }
}

/// Multiplying by integer one leaves a canonical numeric value unchanged.
pub proof fn lemma_mul_one(a: ExprV)
    requires
        a.is_numeric(),
        wf_num(a),
    ensures
        mul_q(a, ExprV::Integer(1)) == (a.num_of(), a.den_of()),
        as_num_expr(mul_q(a, ExprV::Integer(1))) == a,
{
    assert(a.num_of() * 1 == a.num_of());
    assert(a.den_of() * 1 == a.den_of());
    match a {
        ExprV::Integer(i) => {
            lemma_gcd_one(abs_of(i as int));
            lemma_norm_of_reduced(i as int, 1);
        },
        ExprV::Ratio(n, d) => {
            lemma_norm_of_reduced(n as int, d as int);
        },
        _ => {},
    }
}

/// The greatest common divisor of a value and itself is that value.
proof fn lemma_gcd_self(x: nat)
    requires
        x >= 1,
    ensures
        gcd(x, x) == x,
{
    lemma_fundamental_div_mod_converse(x as int, x as int, 1, 0);
    assert(gcd(x, x) == gcd(x, 0));
}

/// A nonzero value divided by itself is canonical one.
proof fn lemma_norm_self(k: int)
    requires
        k != 0,
    ensures
        norm_num(k, k) == (1int, 1int),
{
    let m = abs_of(k);
    lemma_gcd_self(m);
    lemma_fundamental_div_mod_converse(m as int, m as int, 1, 0);
}

/// Dividing a nonzero numeric value by itself yields integer one.
pub proof fn lemma_div_self(a: ExprV)
    requires
        a.is_numeric(),
        wf_num(a),
        a.num_of() != 0,
    ensures
        as_num_expr(div_q(a, a)) == ExprV::Integer(1),
{
    let k = a.num_of() * a.den_of();
    assert(k != 0) by (nonlinear_arith)
        requires
            a.num_of() != 0,
            a.den_of() >= 1,
            k == a.num_of() * a.den_of(),
    ;
    assert(a.den_of() * a.num_of() == k) by (nonlinear_arith)
        requires
            k == a.num_of() * a.den_of(),
    ;
    lemma_norm_self(k);
}

/// A multiple of a positive value scaled down by it is canonical.
proof fn lemma_norm_scale(x: int, k: int)
    requires
        1 <= k,
    ensures
        norm_num(x * k, k) == (x, 1int),
{
    let p = x * k;
    let m = abs_of(p);
    let ax = abs_of(x);
    if x >= 0 {
        assert(p >= 0 && p == ax * k) by (nonlinear_arith)
            requires
                x >= 0,
                k >= 1,
                p == x * k,
                ax == x,
        ;
    } else {
        assert(p < 0 && -p == ax * k) by (nonlinear_arith)
            requires
                x < 0,
                k >= 1,
                p == x * k,
                ax == -x,
        ;
    }
    assert(m == ax * (k as nat));
    let kn = k as nat;
    assert(m as int == (ax as int) * (kn as int) + 0) by (nonlinear_arith)
        requires
            m == ax * kn,
    ;
    lemma_fundamental_div_mod_converse(m as int, kn as int, ax as int, 0);
    lemma_fundamental_div_mod_converse(kn as int, kn as int, 1, 0);
    lemma_gcd_divides(m, kn);
    lemma_gcd_greatest(m, kn, kn);
    let g = gcd(m, kn);
    assert(g >= 1) by {
        if g == 0 {
            assert(kn == 0);
        }
    }
    assert(kn % g == 0 && g % kn == 0);
    lemma_fundamental_div_mod(kn as int, g as int);
    lemma_fundamental_div_mod(g as int, kn as int);
    assert(g == kn) by (nonlinear_arith)
        requires
            g >= 1,
            kn >= 1,
            kn as int == g as int * ((kn / g) as int),
            g as int == kn as int * ((g / kn) as int),
    ;
    assert(m / g == ax);
    assert(kn / g == 1);
    if p >= 0 {
        assert(x >= 0) by (nonlinear_arith)
            requires
                p == x * k,
                k >= 1,
                p >= 0,
        ;
        assert(norm_num(p, k).0 == ax as int);
    } else {
        assert(x < 0) by (nonlinear_arith)
            requires
                p == x * k,
                k >= 1,
                p < 0,
        ;
        assert(norm_num(p, k).0 == -(ax as int));
    }
}

/// Dividing an integer by a nonzero integer and multiplying back restores
/// the original value, whenever the quotient is representable.
pub proof fn lemma_div_mul_cancel(a: i64, b: i64)
    requires
        b != 0,
        fits_num(div_q(ExprV::Integer(a), ExprV::Integer(b))),
    ensures
        as_num_expr(
            mul_q(as_num_expr(div_q(ExprV::Integer(a), ExprV::Integer(b))), ExprV::Integer(b)),
        ) == ExprV::Integer(a),
{
    let q = div_q(ExprV::Integer(a), ExprV::Integer(b));
    let n1 = q.0;
    let d1 = q.1;
    lemma_norm_shape(a as int, b as int);
    let x = as_num_expr(q);
    assert(x.num_of() == n1 && x.den_of() == d1);
    assert(n1 * (b as int) == (a as int) * d1);
    assert(mul_q(x, ExprV::Integer(b)) == norm_num(n1 * (b as int), d1));
    lemma_norm_scale(a as int, d1);
    assert((a as int) * d1 == n1 * (b as int));
    assert(norm_num(n1 * (b as int), d1) == norm_num((a as int) * d1, d1));
}

/// The canonical quotient of two integers cross-multiplies back to the
/// original pair, with a positive denominator.
proof fn lemma_norm_shape(a: int, b: int)
    requires
        b != 0,
        -0x8000_0000_0000_0000 <= a <= 0x7fff_ffff_ffff_ffff,
        -0x8000_0000_0000_0000 <= b <= 0x7fff_ffff_ffff_ffff,
    ensures
        ({
            let q = norm_num(a, b);
            q.1 >= 1 && q.0 * b == a * q.1 && norm_num(a * 1, 1 * b) == q
        }),
{
    assert(a * 1 == a && 1 * b == b) by (nonlinear_arith);
    let n2 = if b < 0 {
        -a
    } else {
        a
    };
    let dm = abs_of(b);
    let nm = abs_of(n2);
    assert(nm == abs_of(a));
    let g = gcd(nm, dm);
    lemma_gcd_divides(nm, dm);
    assert(g >= 1) by {
        if g == 0 {
            assert(dm == 0);
        }
    }
    lemma_fundamental_div_mod(nm as int, g as int);
    lemma_fundamental_div_mod(dm as int, g as int);
    let nq = nm / g;
    let dq = dm / g;
    assert(dq >= 1) by (nonlinear_arith)
        requires
            dm as int == g as int * dq as int,
            dm >= 1,
            g >= 1,
    ;
    let q = norm_num(a, b);
    assert(q.1 == dq as int);
    assert(q.0 * b == a * q.1) by (nonlinear_arith)
        requires
            nm as int == g as int * nq as int,
            dm as int == g as int * dq as int,
            g >= 1,
            nm == abs_of(a),
            dm == abs_of(b),
            b != 0,
            q.1 == dq as int,
            q.0 == (if (if b < 0 { -a } else { a }) >= 0 {
                nq as int
            } else {
                -(nq as int)
            }),
    ;
}

} // verus!
