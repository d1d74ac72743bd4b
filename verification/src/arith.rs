//! Arithmetic dispatch: applying the detected operator to the two parsed
//! operands.
use vstd::prelude::*;
use crate::number::in_i64;
use crate::outcome::{CalcError, Outcome, is_op_char, outcome_of};

verus! {

pub open spec fn abs_int(a: int) -> int {
    if a >= 0 {
        a
    } else {
        -a
    }
}

/// Signed division truncating toward zero, as machine division does.
pub open spec fn div_trunc(a: int, b: int) -> int {
    if (a >= 0) == (b >= 0) {
        abs_int(a) / abs_int(b)
    } else {
        -(abs_int(a) / abs_int(b))
    }
}

/// The mathematical result of one binary operation.
pub open spec fn apply_op(op: char, a: int, b: int) -> int {
    if op == '+' {
        a + b
    } else if op == '-' {
        a - b
    } else if op == '*' {
        a * b
    } else {
        div_trunc(a, b)
    }
}

/// What applying `op` to `a` and `b` yields: division by zero fails, a
/// result outside the numeric range fails, anything else is the
/// mathematical result.
pub open spec fn calc_outcome(a: int, op: char, b: int) -> Outcome {
    if op == '/' && b == 0 {
        Outcome::DivisionByZero
    } else if !in_i64(apply_op(op, a, b)) {
        Outcome::OutOfRange
    } else {
        Outcome::Value(apply_op(op, a, b))
    }
}

/// The magnitude of a value, as an unsigned machine word.
fn magnitude(v: i64) -> (m: u64)
    ensures
        m == abs_int(v as int),
{
    if v >= 0 {
        v as u64
    } else if v == i64::MIN {
        9_223_372_036_854_775_808u64
    } else {
        (-v) as u64
    }
}

/// Performs the binary operation `n1 op n2`.
///
/// The operator must come from the closed set that the scan detects; the
/// unreachable defensive case of a symbol outside it is excluded by
/// contract rather than handled at run time.
pub fn calculate(n1: i64, op: char, n2: i64) -> (r: Result<i64, CalcError>)
    requires
        is_op_char(op),
    ensures
        outcome_of(r) == calc_outcome(n1 as int, op, n2 as int),
{
    if op == '+' {
        let sum: i128 = n1 as i128 + n2 as i128;
        if sum > i64::MAX as i128 || sum < i64::MIN as i128 {
            Err(CalcError::OutOfRange)
        } else {
            Ok(sum as i64)
        }
    } else if op == '-' {
        let diff: i128 = n1 as i128 - n2 as i128;
        if diff > i64::MAX as i128 || diff < i64::MIN as i128 {
            Err(CalcError::OutOfRange)
        } else {
            Ok(diff as i64)
        }
    } else if op == '*' {
        proof {
            let a = n1 as int;
            let b = n2 as int;
            assert(-85070591730234615865843651857942052864 <= a * b
                <= 85070591730234615865843651857942052864) by (nonlinear_arith)
                requires
                    -9223372036854775808 <= a <= 9223372036854775807,
                    -9223372036854775808 <= b <= 9223372036854775807,
            ;
        }
        let prod: i128 = n1 as i128 * n2 as i128;
        if prod > i64::MAX as i128 || prod < i64::MIN as i128 {
            Err(CalcError::OutOfRange)
        } else {
            Ok(prod as i64)
        }
    } else {
        if n2 == 0 {
            return Err(CalcError::DivisionByZero);
        }
        let m1 = magnitude(n1);
        let m2 = magnitude(n2);
        let q = m1 / m2;
        if (n1 >= 0) == (n2 >= 0) {
            if q > i64::MAX as u64 {
                Err(CalcError::OutOfRange)
            } else {
                Ok(q as i64)
            }
        } else {
            proof {
                assert(m1 / m2 <= m1) by (nonlinear_arith)
                    requires
                        m2 >= 1,
                ;
            }
            if q == 9_223_372_036_854_775_808u64 {
                Ok(i64::MIN)
            } else {
                Ok(-(q as i64))
            }
        }
    }
}

} // verus!
