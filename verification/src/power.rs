//! Integer exponentiation: the mathematical definition, bounds used to rule
//! out overflow, and an executable implementation.

use vstd::prelude::*;

verus! {

/// `b` raised to the power `e`.  Exponents at or below zero give 1; the
/// graph only ever uses nonnegative exponents.
pub open spec fn pow_int(b: int, e: int) -> int
    decreases e,
{
    if e <= 0 {
        1
    } else {
        b * pow_int(b, e - 1)
    }
}

/// Absolute value.
pub open spec fn abs_i(x: int) -> int {
    if x < 0 {
        -x
    } else {
        x
    }
}

/// The absolute value of a product is the product of the absolute values.
pub proof fn lemma_abs_mul(x: int, y: int)
    ensures
        abs_i(x * y) == abs_i(x) * abs_i(y),
{
    if x >= 0 && y >= 0 {
        assert(x * y >= 0) by (nonlinear_arith)
            requires
                x >= 0,
                y >= 0,
        ;
    } else if x < 0 && y >= 0 {
        assert(x * y <= 0 && (-x) * y == -(x * y)) by (nonlinear_arith)
            requires
                x < 0,
                y >= 0,
        ;
    } else if x >= 0 && y < 0 {
        assert(x * y <= 0 && x * (-y) == -(x * y)) by (nonlinear_arith)
            requires
                x >= 0,
                y < 0,
        ;
    } else {
        assert(x * y >= 0 && (-x) * (-y) == x * y) by (nonlinear_arith)
            requires
                x < 0,
                y < 0,
        ;
    }
}

/// Powers of a base at least 1 are at least 1.
pub proof fn lemma_pow_ge1(a: int, e: int)
    requires
        a >= 1,
    ensures
        pow_int(a, e) >= 1,
    decreases e,
{
    if e > 0 {
        lemma_pow_ge1(a, e - 1);
        assert(a * pow_int(a, e - 1) >= 1) by (nonlinear_arith)
            requires
                a >= 1,
                pow_int(a, e - 1) >= 1,
        ;
    }
}

/// For a base at least 1, powers grow with the exponent.
pub proof fn lemma_pow_mono(a: int, e1: int, e2: int)
    requires
        a >= 1,
        0 <= e1 <= e2,
    ensures
        pow_int(a, e1) <= pow_int(a, e2),
    decreases e2 - e1,
{
    if e1 < e2 {
        lemma_pow_mono(a, e1, e2 - 1);
        lemma_pow_ge1(a, e2 - 1);
        assert(pow_int(a, e2 - 1) <= a * pow_int(a, e2 - 1)) by (nonlinear_arith)
            requires
                a >= 1,
                pow_int(a, e2 - 1) >= 1,
        ;
    }
}

/// The absolute value of a power is the power of the absolute value.
pub proof fn lemma_pow_abs(b: int, e: int)
    ensures
        abs_i(pow_int(b, e)) == pow_int(abs_i(b), e),
    decreases e,
{
    if e > 0 {
        lemma_pow_abs(b, e - 1);
        lemma_abs_mul(b, pow_int(b, e - 1));
    }
}

/// A positive power of zero is zero.
pub proof fn lemma_pow_zero_base(e: int)
    requires
        e >= 1,
    ensures
        pow_int(0, e) == 0,
    decreases e,
{
    if e > 1 {
        lemma_pow_zero_base(e - 1);
    }
}

/// Every intermediate power is bounded by the final power or by 1, so the
/// repeated products computed by `pow_i64` never outgrow the final result
/// by more than that margin.
pub proof fn lemma_pow_intermediate(b: int, j: int, e: int)
    requires
        0 <= j <= e,
    ensures
        abs_i(pow_int(b, j)) <= abs_i(pow_int(b, e)) || abs_i(pow_int(b, j)) <= 1,
{
    if abs_i(b) >= 1 {
        lemma_pow_abs(b, j);
        lemma_pow_abs(b, e);
        lemma_pow_mono(abs_i(b), j, e);
    } else {
        if j >= 1 {
            lemma_pow_abs(b, j);
            lemma_pow_zero_base(j);
        }
    }
}

/// Scaling by an integer factor of magnitude at least 1 cannot shrink the
/// magnitude.
pub proof fn lemma_abs_le_scaled(x: int, e: int)
    requires
        e >= 1,
    ensures
        abs_i(x) <= abs_i(e * x),
{
    lemma_abs_mul(e, x);
    assert(abs_i(x) <= abs_i(e) * abs_i(x)) by (nonlinear_arith)
        requires
            abs_i(e) >= 1,
            abs_i(x) >= 0,
    ;
}

/// Executable integer exponentiation by repeated multiplication, performed
/// in 128-bit arithmetic; the precondition that the result fits an `i64`
/// bounds every intermediate product.
pub fn pow_i64(base: i64, exp: i64) -> (r: i64)
    requires
        0 <= exp,
        i64::MIN <= pow_int(base as int, exp as int) <= i64::MAX,
    ensures
        r as int == pow_int(base as int, exp as int),
{
    let mut cur: i128 = 1;
    let mut j: i64 = 0;
    while j < exp
        invariant
            0 <= j <= exp,
            cur as int == pow_int(base as int, j as int),
            i64::MIN <= pow_int(base as int, exp as int) <= i64::MAX,
        decreases exp - j,
    {
        proof {
            assert(pow_int(base as int, j as int + 1) == (base as int) * pow_int(
                base as int,
                j as int,
            ));
            assert((cur as int) * (base as int) == (base as int) * (cur as int))
                by (nonlinear_arith);
            lemma_pow_intermediate(base as int, j as int + 1, exp as int);
        }
        cur = cur * (base as i128);
        j = j + 1;
    }
    cur as i64
}

} // verus!
