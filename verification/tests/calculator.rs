use calculator::arith::calculate;
use calculator::eval::{evaluate, output_line, parse_numbers, render};
use calculator::number::{parse_i64, to_decimal};
use calculator::outcome::CalcError;
use calculator::split::{find_operator, split_char};
use calculator::text::trim_str;

#[test]
fn addition_output() {
    assert_eq!(output_line("3 + 4"), "計算結果：7");
}

#[test]
fn division_output() {
    assert_eq!(output_line("10 / 2"), "計算結果：5");
}

#[test]
fn division_by_zero_reported() {
    assert_eq!(evaluate("10 / 0"), Err(CalcError::DivisionByZero));
    let out = output_line("10 / 0");
    assert_eq!(out, "0で割ることはできません");
    assert!(!out.contains("計算結果"));
}

#[test]
fn conversion_failure_reported() {
    assert_eq!(
        evaluate("abc + 2"),
        Err(CalcError::NumericConversion("abc".to_string()))
    );
    let out = output_line("abc + 2");
    assert_eq!(out, "数に変換できません: abc");
    assert!(!out.contains("計算結果"));
}

#[test]
fn operator_not_found_reported() {
    assert_eq!(evaluate("42"), Err(CalcError::OperatorNotFound));
    assert_eq!(output_line("42"), "演算子が見つかりません。");
}

#[test]
fn three_segments_not_binary() {
    let (op, parts) = find_operator("1 + 2 + 3").unwrap();
    assert_eq!(op, '+');
    assert_eq!(parts.len(), 3);
    assert_eq!(evaluate("1 + 2 + 3"), Err(CalcError::NotBinary));
    assert_eq!(output_line("1 + 2 + 3"), "2項演算のみに対応しています。");
}

#[test]
fn identical_input_identical_output() {
    let first = output_line("8 * 5");
    let second = output_line("8 * 5");
    assert_eq!(first, second);
    assert_eq!(first, "計算結果：40");
}

#[test]
fn subtraction_result() {
    assert_eq!(evaluate("6 - 9"), Ok(-3));
    assert_eq!(output_line("6 - 9"), "計算結果：-3");
}

#[test]
fn multiplication_result() {
    assert_eq!(evaluate("12 * 12"), Ok(144));
}

#[test]
fn surrounding_whitespace_is_trimmed() {
    assert_eq!(evaluate("  7 *  3\n"), Ok(21));
    assert_eq!(trim_str("  a b "), "a b");
    assert_eq!(trim_str("\t\r\n "), "");
    assert_eq!(trim_str("xy"), "xy");
}

#[test]
fn no_spaces_around_operator() {
    assert_eq!(evaluate("10/2"), Ok(5));
}

#[test]
fn negative_right_operand() {
    assert_eq!(evaluate("3 + -2"), Ok(1));
}

#[test]
fn division_truncates_toward_zero() {
    assert_eq!(evaluate("7 / 2"), Ok(3));
    assert_eq!(calculate(7, '/', -2), Ok(-3));
    assert_eq!(calculate(-7, '/', 2), Ok(-3));
    assert_eq!(calculate(-7, '/', -2), Ok(3));
}

#[test]
fn addition_overflow_reported() {
    assert_eq!(
        evaluate("9223372036854775807 + 1"),
        Err(CalcError::OutOfRange)
    );
    assert_eq!(output_line("9223372036854775807 + 1"), "計算できる範囲を超えています");
}

#[test]
fn division_overflow_reported() {
    assert_eq!(calculate(i64::MIN, '/', -1), Err(CalcError::OutOfRange));
    assert_eq!(calculate(i64::MIN, '/', 1), Ok(i64::MIN));
}

#[test]
fn operand_too_large_to_parse() {
    assert_eq!(
        evaluate("100000000000000000000 - 1"),
        Err(CalcError::NumericConversion("100000000000000000000".to_string()))
    );
}

#[test]
fn parse_plain_and_signed() {
    assert_eq!(parse_i64("12"), Some(12));
    assert_eq!(parse_i64("+5"), Some(5));
    assert_eq!(parse_i64("-0"), Some(0));
    assert_eq!(parse_i64("007"), Some(7));
    assert_eq!(parse_i64("-9223372036854775808"), Some(i64::MIN));
    assert_eq!(parse_i64("9223372036854775807"), Some(i64::MAX));
}

#[test]
fn parse_rejects_malformed_text() {
    assert_eq!(parse_i64(""), None);
    assert_eq!(parse_i64("+"), None);
    assert_eq!(parse_i64("-"), None);
    assert_eq!(parse_i64("1.5"), None);
    assert_eq!(parse_i64("1 2"), None);
    assert_eq!(parse_i64("9223372036854775808"), None);
    assert_eq!(parse_i64("-9223372036854775809"), None);
    assert_eq!(parse_i64("00000000000000000000123"), Some(123));
}

#[test]
fn decimal_rendering() {
    assert_eq!(to_decimal(0), "0");
    assert_eq!(to_decimal(7), "7");
    assert_eq!(to_decimal(-45), "-45");
    assert_eq!(to_decimal(i64::MAX), "9223372036854775807");
    assert_eq!(to_decimal(i64::MIN), "-9223372036854775808");
}

#[test]
fn fixed_priority_scan_picks_minus_before_star() {
    let (op, parts) = find_operator("5*3-1").unwrap();
    assert_eq!(op, '-');
    assert_eq!(parts, vec!["5*3", "1"]);
    assert_eq!(
        evaluate("5*3-1"),
        Err(CalcError::NumericConversion("5*3".to_string()))
    );
}

#[test]
fn leading_minus_misread_as_operator() {
    assert_eq!(
        evaluate("-5 * 2"),
        Err(CalcError::NumericConversion(String::new()))
    );
    assert_eq!(output_line("-5 * 2"), "数に変換できません: ");
}

#[test]
fn split_keeps_every_segment() {
    let parts = split_char("1+2+3", '+');
    assert_eq!(parts, vec!["1", "2", "3"]);
    let parts = split_char("", '+');
    assert_eq!(parts, vec![""]);
    let parts = split_char("++", '+');
    assert_eq!(parts, vec!["", "", ""]);
}

#[test]
fn parse_numbers_requires_two_segments() {
    assert_eq!(parse_numbers(vec!["1"]), Err(CalcError::NotBinary));
    assert_eq!(
        parse_numbers(vec!["1", "2", "3"]),
        Err(CalcError::NotBinary)
    );
    assert_eq!(parse_numbers(vec![" 4", "5 "]), Ok((4, 5)));
}

#[test]
fn empty_input_has_no_operator() {
    assert_eq!(evaluate(""), Err(CalcError::OperatorNotFound));
}

#[test]
fn render_matches_each_outcome() {
    assert_eq!(render(&Ok(7)), "計算結果：7");
    assert_eq!(render(&Err(CalcError::OperatorNotFound)), "演算子が見つかりません。");
    assert_eq!(render(&Err(CalcError::NotBinary)), "2項演算のみに対応しています。");
    assert_eq!(
        render(&Err(CalcError::NumericConversion("x１".to_string()))),
        "数に変換できません: x１"
    );
    assert_eq!(render(&Err(CalcError::DivisionByZero)), "0で割ることはできません");
    assert_eq!(render(&Err(CalcError::OutOfRange)), "計算できる範囲を超えています");
}
