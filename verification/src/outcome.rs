//! The result of evaluating one line: a numeric value or a categorised
//! failure.
use vstd::prelude::*;

verus! {

/// A categorised evaluation failure.
#[derive(Debug, PartialEq, Eq)]
pub enum CalcError {
    /// None of the four operator symbols occurs in the input.
    OperatorNotFound,
    /// The operator does not split the input into exactly two segments.
    NotBinary,
    /// An operand (carried here, trimmed) cannot be parsed as a number.
    NumericConversion(String),
    /// The divisor is zero under the divide operator.
    DivisionByZero,
    /// The mathematical result does not fit the numeric range.
    OutOfRange,
}

/// What evaluating a line yields, stated at the specification level.
pub enum Outcome {
    /// The mathematical value of the expression.
    Value(int),
    /// No operator symbol occurs in the line.
    NoOperator,
    /// The operator does not split the line into exactly two segments.
    NotBinary,
    /// The carried (trimmed) operand text is not a number in range.
    BadNumber(Seq<char>),
    /// The divisor is zero under the divide operator.
    DivisionByZero,
    /// The mathematical result does not fit the numeric range.
    OutOfRange,
}

/// The outcome that an executable result stands for.
pub open spec fn outcome_of(r: Result<i64, CalcError>) -> Outcome {
    match r {
        Ok(v) => Outcome::Value(v as int),
        Err(CalcError::OperatorNotFound) => Outcome::NoOperator,
        Err(CalcError::NotBinary) => Outcome::NotBinary,
        Err(CalcError::NumericConversion(t)) => Outcome::BadNumber(t@),
        Err(CalcError::DivisionByZero) => Outcome::DivisionByZero,
        Err(CalcError::OutOfRange) => Outcome::OutOfRange,
    }
}

/// The four operator symbols, closed set.
pub open spec fn is_op_char(c: char) -> bool {
    c == '+' || c == '-' || c == '*' || c == '/'
}

} // verus!
