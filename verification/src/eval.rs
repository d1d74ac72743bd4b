//! The evaluation pipeline: one line of text in, one rendered message out.
use vstd::prelude::*;
use crate::arith::{calc_outcome, calculate};
use crate::number::{dec_chars, parse_i64, parse_i64_spec, to_decimal};
use crate::outcome::{CalcError, Outcome, outcome_of};
use crate::split::{detect_op, find_operator, split_on};
use crate::text::{trim_spec, trim_str};

verus! {

/// What evaluating one raw line yields: the line is trimmed, the
/// fixed-priority scan picks the operator and splits the line on it,
/// the two segments are trimmed and parsed, and the operation is applied.
/// Each failure short-circuits the remaining stages.
pub open spec fn eval_spec(raw: Seq<char>) -> Outcome {
    let s = trim_spec(raw);
    match detect_op(s) {
        Option::None => Outcome::NoOperator,
        Option::Some(op) => {
            let parts = split_on(s, op);
            if parts.len() != 2 {
                Outcome::NotBinary
            } else {
                let t0 = trim_spec(parts[0]);
                let t1 = trim_spec(parts[1]);
                match parse_i64_spec(t0) {
                    Option::None => Outcome::BadNumber(t0),
                    Option::Some(a) => match parse_i64_spec(t1) {
                        Option::None => Outcome::BadNumber(t1),
                        Option::Some(b) => calc_outcome(a, op, b),
                    },
                }
            }
        },
    }
}

/// Trims and parses the two operand segments.
///
/// Exactly two segments must have come out of the split; fewer or more
/// fail with `CalcError::NotBinary`. A segment that is not a number in
/// range fails with `CalcError::NumericConversion` carrying the trimmed
/// segment, the first failing one.
pub fn parse_numbers<'a>(parts: Vec<&'a str>) -> (r: Result<(i64, i64), CalcError>)
    ensures
        ({
            let ps = parts@.map_values(|p: &str| p@);
            match r {
                Ok((a, b)) => ps.len() == 2 && parse_i64_spec(trim_spec(ps[0])) == Some(a as int)
                    && parse_i64_spec(trim_spec(ps[1])) == Some(b as int),
                Err(e) => match e {
                    CalcError::NotBinary => ps.len() != 2,
                    CalcError::NumericConversion(t) => ps.len() == 2 && ((parse_i64_spec(
                        trim_spec(ps[0]),
                    ) is None && t@ == trim_spec(ps[0])) || (parse_i64_spec(
                        trim_spec(ps[0]),
                    ) is Some && parse_i64_spec(trim_spec(ps[1])) is None && t@ == trim_spec(
                        ps[1],
                    ))),
                    _ => false,
                },
            }
        }),
{
    if parts.len() != 2 {
        return Err(CalcError::NotBinary);
    }
    let t0 = trim_str(parts[0]);
    let n1 = match parse_i64(t0) {
        Some(v) => v,
        None => {
            return Err(CalcError::NumericConversion(t0.to_owned()));
        },
    };
    let t1 = trim_str(parts[1]);
    let n2 = match parse_i64(t1) {
        Some(v) => v,
        None => {
            return Err(CalcError::NumericConversion(t1.to_owned()));
        },
    };
    Ok((n1, n2))
}

/// Evaluates one raw line to a numeric result or a categorised failure.
pub fn evaluate(input: &str) -> (r: Result<i64, CalcError>)
    ensures
        outcome_of(r) == eval_spec(input@),
{
    let trimmed = trim_str(input);
    let (op, parts) = match find_operator(trimmed) {
        Ok(pair) => pair,
        Err(e) => {
            return Err(e);
        },
    };
    let (n1, n2) = match parse_numbers(parts) {
        Ok(pair) => pair,
        Err(e) => {
            return Err(e);
        },
    };
    calculate(n1, op, n2)
}

/// The one message line that an outcome is reported as.
pub open spec fn render_spec(o: Outcome) -> Seq<char> {
    match o {
        Outcome::Value(n) => "計算結果："@ + dec_chars(n),
        Outcome::NoOperator => "演算子が見つかりません。"@,
        Outcome::NotBinary => "2項演算のみに対応しています。"@,
        Outcome::BadNumber(t) => "数に変換できません: "@ + t,
        Outcome::DivisionByZero => "0で割ることはできません"@,
        Outcome::OutOfRange => "計算できる範囲を超えています"@,
    }
}

/// Renders an evaluation result as its message line.
pub fn render(r: &Result<i64, CalcError>) -> (out: String)
    ensures
        out@ == render_spec(outcome_of(*r)),
{
    match r {
        Ok(v) => {
            let mut out = "計算結果：".to_owned();
            let digits = to_decimal(*v);
            out.append(digits.as_str());
            out
        },
        Err(CalcError::OperatorNotFound) => "演算子が見つかりません。".to_owned(),
        Err(CalcError::NotBinary) => "2項演算のみに対応しています。".to_owned(),
        Err(CalcError::NumericConversion(t)) => {
            let mut out = "数に変換できません: ".to_owned();
            out.append(t.as_str());
            out
        },
        Err(CalcError::DivisionByZero) => "0で割ることはできません".to_owned(),
        Err(CalcError::OutOfRange) => "計算できる範囲を超えています".to_owned(),
    }
}

/// Evaluates one raw line and renders the message it is reported as.
pub fn output_line(input: &str) -> (out: String)
    ensures
        out@ == render_spec(eval_spec(input@)),
{
    let r = evaluate(input);
    render(&r)
}

} // verus!
