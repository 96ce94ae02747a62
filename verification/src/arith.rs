//! The arithmetic of the evaluator: exact integer operations whose results
//! must fit a 64-bit signed integer.

use crate::error::ArithmeticError;
use crate::token::Operator;
use vstd::prelude::*;

verus! {

/// The product 1 * 2 * ... * n, which is 1 for n below 2.
pub open spec fn factorial_of(n: nat) -> nat
    decreases n,
{
    if n < 2 {
        1
    } else {
        n * factorial_of((n - 1) as nat)
    }
}

/// `base` raised to the power `exp`.
pub open spec fn power_of(base: int, exp: nat) -> int
    decreases exp,
{
    if exp == 0 {
        1
    } else {
        base * power_of(base, (exp - 1) as nat)
    }
}

/// The absolute value of `x`.
pub open spec fn magnitude(x: int) -> int {
    if x < 0 {
        -x
    } else {
        x
    }
}

/// The quotient of `l` by `r`, rounded towards zero.
pub open spec fn trunc_div(l: int, r: int) -> int
    recommends
        r != 0,
{
    if (l < 0) == (r < 0) {
        magnitude(l) / magnitude(r)
    } else {
        -(magnitude(l) / magnitude(r))
    }
}

/// The remainder that belongs to `trunc_div`: it has the sign of `l`.
pub open spec fn trunc_rem(l: int, r: int) -> int
    recommends
        r != 0,
{
    if l < 0 {
        -(magnitude(l) % magnitude(r))
    } else {
        magnitude(l) % magnitude(r)
    }
}

/// The exact result `v` as a 64-bit signed integer, where it is one.
pub open spec fn fit(v: int) -> Result<i64, ArithmeticError> {
    if i64::MIN <= v <= i64::MAX {
        Ok(v as i64)
    } else {
        Err(ArithmeticError::Overflow)
    }
}

/// The factorial of `n`: a negative `n` has none.
pub open spec fn factorial_result(n: i64) -> Result<i64, ArithmeticError> {
    if n < 0 {
        Err(ArithmeticError::NegativeFactorial)
    } else {
        fit(factorial_of(n as nat) as int)
    }
}

/// `base` raised to the power `exp`: a negative `exp` gives no integer.
pub open spec fn power_result(base: i64, exp: i64) -> Result<i64, ArithmeticError> {
    if exp < 0 {
        Err(ArithmeticError::NegativeExponent)
    } else {
        fit(power_of(base as int, exp as nat))
    }
}

/// Whether `op` takes two operands.
pub open spec fn is_binary(op: Operator) -> bool {
    op == Operator::Plus || op == Operator::Minus || op == Operator::Multiply || op
        == Operator::Divide || op == Operator::Power || op == Operator::Modulo
}

/// The result of the binary operator `op` on the left operand `l` and the
/// right operand `r`.
pub open spec fn binary_result(op: Operator, l: i64, r: i64) -> Result<i64, ArithmeticError>
    recommends
        is_binary(op),
{
    match op {
        Operator::Plus => fit(l + r),
        Operator::Minus => fit(l - r),
        Operator::Multiply => fit(l * r),
        Operator::Divide => if r == 0 {
            Err(ArithmeticError::DivisionByZero)
        } else {
            fit(trunc_div(l as int, r as int))
        },
        Operator::Modulo => if r == 0 {
            Err(ArithmeticError::DivisionByZero)
        } else {
            fit(trunc_rem(l as int, r as int))
        },
        Operator::Power => power_result(l, r),
        _ => Ok(l),
    }
}

/// Quotient and remainder give the dividend back, and the remainder is
/// smaller than the divisor and has the sign of the dividend.
pub proof fn lemma_trunc_div_rem(l: int, r: int)
    requires
        r != 0,
    ensures
        l == r * trunc_div(l, r) + trunc_rem(l, r),
        magnitude(trunc_rem(l, r)) < magnitude(r),
        l >= 0 ==> trunc_rem(l, r) >= 0,
        l <= 0 ==> trunc_rem(l, r) <= 0,
{
    let a = magnitude(l);
    let b = magnitude(r);
    let q = a / b;
    let m = a % b;
    assert(a == b * q + m && 0 <= m < b) by {
        vstd::arithmetic::div_mod::lemma_fundamental_div_mod(a, b);
    }
    assert(l == r * trunc_div(l, r) + trunc_rem(l, r)) by (nonlinear_arith)
        requires
            a == b * q + m,
            a == magnitude(l),
            b == magnitude(r),
            trunc_div(l, r) == (if (l < 0) == (r < 0) {
                q
            } else {
                -q
            }),
            trunc_rem(l, r) == (if l < 0 {
                -m
            } else {
                m
            }),
    ;
}

/// A factorial is at least 1, and no less than the factorial of a smaller
/// number.
pub proof fn lemma_factorial_grows(a: nat, b: nat)
    requires
        a <= b,
    ensures
        1 <= factorial_of(a) <= factorial_of(b),
    decreases b,
{
    if b < 2 {
    } else if a == b {
        lemma_factorial_grows((a - 1) as nat, (a - 1) as nat);
        assert(a * factorial_of((a - 1) as nat) >= 1) by (nonlinear_arith)
            requires
                a >= 2,
                factorial_of((a - 1) as nat) >= 1,
        ;
    } else {
        lemma_factorial_grows(a, (b - 1) as nat);
        assert(b * factorial_of((b - 1) as nat) >= factorial_of((b - 1) as nat))
            by (nonlinear_arith)
            requires
                b >= 2,
                factorial_of((b - 1) as nat) >= 1,
        ;
    }
}

/// The factorial of `n`.
///
/// The factorial of a negative number is a failure, and so is one that does
/// not fit a 64-bit signed integer.
pub fn factorial(n: i64) -> (r: Result<i64, ArithmeticError>)
    ensures
        r == factorial_result(n),
{
    if n < 0 {
        return Err(ArithmeticError::NegativeFactorial);
    }
    let mut acc: i64 = 1;
    let mut k: i64 = 1;
    while k < n
        invariant
            1 <= k,
            k <= n || k == 1,
            n >= 0,
            acc == factorial_of(k as nat),
        decreases n - k,
    {
        k += 1;
        match acc.checked_mul(k) {
            Some(v) => {
                assert(acc * k == k * acc) by (nonlinear_arith);
                acc = v;
            },
            None => {
                proof {
                    assert(acc * k == k * acc) by (nonlinear_arith);
                    lemma_factorial_grows(k as nat, n as nat);
                }
                return Err(ArithmeticError::Overflow);
            },
        }
    }
    Ok(acc)
}

/// The magnitude of a power is the power of the magnitude.
pub proof fn lemma_power_magnitude(base: int, exp: nat)
    ensures
        magnitude(power_of(base, exp)) == power_of(magnitude(base), exp),
    decreases exp,
{
    if exp > 0 {
        lemma_power_magnitude(base, (exp - 1) as nat);
        let p = power_of(base, (exp - 1) as nat);
        assert(magnitude(base * p) == magnitude(base) * magnitude(p)) by (nonlinear_arith);
    }
}

/// With a base of at least 2, a power is at least 1, and at least twice each
/// power with a smaller exponent.
pub proof fn lemma_power_doubles(base: int, low: nat, high: nat)
    requires
        base >= 2,
        low < high,
    ensures
        1 <= power_of(base, low),
        2 * power_of(base, low) <= power_of(base, high),
    decreases high,
{
    if low + 1 == high {
        if low > 0 {
            lemma_power_doubles(base, (low - 1) as nat, low);
        }
        assert(base * power_of(base, low) >= 2 * power_of(base, low)) by (nonlinear_arith)
            requires
                base >= 2,
                power_of(base, low) >= 1,
        ;
    } else {
        lemma_power_doubles(base, low, (high - 1) as nat);
        let p = power_of(base, (high - 1) as nat);
        assert(base * p >= p) by (nonlinear_arith)
            requires
                base >= 2,
                p >= 1,
        ;
    }
}

/// The powers of 0, 1 and -1.
pub proof fn lemma_power_of_units(exp: nat)
    ensures
        power_of(0, exp) == (if exp == 0 { 1int } else { 0int }),
        power_of(1, exp) == 1,
        power_of(-1, exp) == (if exp % 2 == 0 { 1int } else { -1int }),
    decreases exp,
{
    if exp > 0 {
        lemma_power_of_units((exp - 1) as nat);
    }
}

/// `base` raised to the power `exp`.
///
/// A negative exponent is a failure, and so is a power that does not fit a
/// 64-bit signed integer.
pub fn power(base: i64, exp: i64) -> (r: Result<i64, ArithmeticError>)
    ensures
        r == power_result(base, exp),
{
    if exp < 0 {
        return Err(ArithmeticError::NegativeExponent);
    }
    proof {
        lemma_power_of_units(exp as nat);
    }
    if base == 0 {
        return Ok(if exp == 0 { 1 } else { 0 });
    }
    if base == 1 {
        return Ok(1);
    }
    if base == -1 {
        return Ok(if exp % 2 == 0 { 1 } else { -1 });
    }
    let mut acc: i64 = 1;
    let mut i: i64 = 0;
    while i < exp
        invariant
            0 <= i <= exp,
            base >= 2 || base <= -2,
            acc == power_of(base as int, i as nat),
        decreases exp - i,
    {
        i += 1;
        match acc.checked_mul(base) {
            Some(v) => {
                assert(acc * base == base * acc) by (nonlinear_arith);
                acc = v;
            },
            None => {
                proof {
                    assert(acc * base == base * acc) by (nonlinear_arith);
                    let here = power_of(base as int, i as nat);
                    let there = power_of(base as int, exp as nat);
                    assert(here == base * acc);
                    lemma_power_magnitude(base as int, i as nat);
                    lemma_power_magnitude(base as int, exp as nat);
                    if i < exp {
                        lemma_power_doubles(magnitude(base as int), i as nat, exp as nat);
                    }
                    assert(there < i64::MIN || there > i64::MAX);
                }
                return Err(ArithmeticError::Overflow);
            },
        }
    }
    Ok(acc)
}

/// The quotient of `l` by `r`, rounded towards zero.
///
/// A zero divisor is a failure, and so is the one quotient that does not fit
/// a 64-bit signed integer.
pub fn divide(l: i64, r: i64) -> (res: Result<i64, ArithmeticError>)
    ensures
        res == binary_result(Operator::Divide, l, r),
        r == 0 ==> res == Err::<i64, ArithmeticError>(ArithmeticError::DivisionByZero),
        res == Err::<i64, ArithmeticError>(ArithmeticError::Overflow) <==> l == i64::MIN && r
            == -1,
{
    if r == 0 {
        return Err(ArithmeticError::DivisionByZero);
    }
    proof {
        let a = magnitude(l as int);
        let b = magnitude(r as int);
        assert(0 <= a / b <= a && (b >= 2 ==> 2 * (a / b) <= a) && (b == 1 ==> a / b == a)
            && (a == 0 ==> a / b == 0)) by (nonlinear_arith)
            requires
                a >= 0,
                b >= 1,
        ;
    }
    match l.checked_div(r) {
        Some(v) => Ok(v),
        None => Err(ArithmeticError::Overflow),
    }
}

/// The remainder of `l` by `r`, with the sign of `l`.
///
/// A zero divisor is a failure.
pub fn remainder(l: i64, r: i64) -> (res: Result<i64, ArithmeticError>)
    ensures
        res == binary_result(Operator::Modulo, l, r),
        r == 0 ==> res == Err::<i64, ArithmeticError>(ArithmeticError::DivisionByZero),
        r != 0 ==> res is Ok,
{
    if r == 0 {
        return Err(ArithmeticError::DivisionByZero);
    }
    proof {
        lemma_trunc_div_rem(l as int, r as int);
        if l == 0 {
            assert(0int % magnitude(r as int) == 0) by (nonlinear_arith)
                requires
                    magnitude(r as int) > 0,
            ;
        }
    }
    if r == -1 {
        return Ok(0);
    }
    match l.checked_rem(r) {
        Some(v) => Ok(v),
        None => Err(ArithmeticError::Overflow),
    }
}

/// Applies the binary operator `op` to the left operand `l` and the right
/// operand `r`.
///
/// Division and remainder round towards zero and fail on a zero divisor; a
/// result that does not fit a 64-bit signed integer is a failure.
pub(crate) fn apply_binary(op: Operator, l: i64, r: i64) -> (res: Result<i64, ArithmeticError>)
    requires
        is_binary(op),
    ensures
        res == binary_result(op, l, r),
{
    match op {
        Operator::Plus => match l.checked_add(r) {
            Some(v) => Ok(v),
            None => Err(ArithmeticError::Overflow),
        },
        Operator::Minus => match l.checked_sub(r) {
            Some(v) => Ok(v),
            None => Err(ArithmeticError::Overflow),
        },
        Operator::Multiply => match l.checked_mul(r) {
            Some(v) => Ok(v),
            None => Err(ArithmeticError::Overflow),
        },
        Operator::Divide => divide(l, r),
        Operator::Modulo => remainder(l, r),
        Operator::Power => power(l, r),
        _ => Ok(l),
    }
}

} // verus!
