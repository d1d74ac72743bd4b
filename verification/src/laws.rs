//! The library-wide laws: what evaluation yields on every well-formed
//! line, and that the output is a pure function of the input.
use vstd::prelude::*;
use crate::arith::apply_op;
use crate::eval::{eval_spec, render_spec};
use crate::number::{
    all_digits,
    digits_value,
    in_i64,
    is_digit_char,
    number_value,
    parse_i64_spec,
    valid_number,
};
use crate::outcome::{Outcome, is_op_char};
use crate::split::{detect_op, lemma_split_pair, seq_contains, split_on};
use crate::text::{
    is_ws_char,
    lemma_trim_leading_space,
    lemma_trim_trailing_space,
    lemma_trim_untrimmed,
};

verus! {

/// For every input line of the shape `<num1> <op> <num2>` whose operands
/// are plain digit strings with in-range values, and whose result is in
/// range (and, under `/`, whose divisor is not zero), evaluation yields
/// exactly the operator applied to the two operand values; division
/// truncates toward zero, as machine division of the host does.
pub proof fn lemma_well_formed_line(s1: Seq<char>, op: char, s2: Seq<char>)
    requires
        s1.len() > 0,
        s2.len() > 0,
        all_digits(s1),
        all_digits(s2),
        is_op_char(op),
        in_i64(digits_value(s1)),
        in_i64(digits_value(s2)),
        in_i64(apply_op(op, digits_value(s1), digits_value(s2))),
        op == '/' ==> digits_value(s2) != 0,
    ensures
        eval_spec(s1 + seq![' ', op, ' '] + s2) == Outcome::Value(
            apply_op(op, digits_value(s1), digits_value(s2)),
        ),
{
    let mid = seq![' ', op, ' '];
    let input = s1 + mid + s2;
    let part0 = s1 + seq![' '];
    let part1 = seq![' '] + s2;
    let fore = s1 + mid;

    assert forall|i: int| 0 <= i < input.len() implies (is_digit_char(input[i]) || input[i] == ' '
        || input[i] == op) by {
        if i < fore.len() {
            assert(input[i] == fore[i]);
            if i < s1.len() {
                assert(fore[i] == s1[i]);
            } else {
                assert(fore[i] == mid[i - s1.len()]);
            }
        } else {
            assert(input[i] == s2[i - fore.len()]);
        }
    }

    assert(input[0] == s1[0]);
    assert(is_digit_char(input[0]));
    assert(input.last() == s2[s2.len() - 1]);
    assert(is_digit_char(input.last()));
    lemma_trim_untrimmed(input);

    assert(seq_contains(input, op)) by {
        assert(input[s1.len() as int + 1] == mid[1]);
    }
    assert forall|o: char| is_op_char(o) && o != op implies !seq_contains(input, o) by {
        if seq_contains(input, o) {
            let i = choose|i: int| 0 <= i < input.len() && input[i] == o;
            assert(is_digit_char(input[i]) || input[i] == ' ' || input[i] == op);
        }
    }
    assert(detect_op(input) == Some(op)) by {
        if op != '+' {
            assert(is_op_char('+') && '+' != op);
            assert(!seq_contains(input, '+'));
        }
        if op != '-' && op != '+' {
            assert(!seq_contains(input, '-'));
        }
        if op == '/' {
            assert(!seq_contains(input, '*'));
        }
    }

    assert(!seq_contains(part0, op)) by {
        if seq_contains(part0, op) {
            let i = choose|i: int| 0 <= i < part0.len() && part0[i] == op;
            if i < s1.len() {
                assert(part0[i] == s1[i]);
            } else {
                assert(part0[i] == ' ');
            }
        }
    }
    assert(!seq_contains(part1, op)) by {
        if seq_contains(part1, op) {
            let i = choose|i: int| 0 <= i < part1.len() && part1[i] == op;
            if i == 0 {
                assert(part1[i] == ' ');
            } else {
                assert(part1[i] == s2[i - 1]);
            }
        }
    }
    lemma_split_pair(part0, part1, op);
    assert(part0 + seq![op] + part1 =~= input);
    assert(split_on(input, op) == seq![part0, part1]);

    assert(!is_ws_char(s1[0]) && !is_ws_char(s1.last()));
    assert(!is_ws_char(s2[0]) && !is_ws_char(s2.last()));
    lemma_trim_trailing_space(s1);
    lemma_trim_leading_space(s2);

    assert(valid_number(s1));
    assert(number_value(s1) == digits_value(s1));
    assert(parse_i64_spec(s1) == Some(digits_value(s1)));
    assert(valid_number(s2));
    assert(number_value(s2) == digits_value(s2));
    assert(parse_i64_spec(s2) == Some(digits_value(s2)));
}

/// The output line is a pure function of the input line: two runs on
/// identical input always yield identical output. There is no hidden
/// state anywhere in the pipeline.
pub proof fn lemma_output_deterministic(a: Seq<char>, b: Seq<char>)
    requires
        a == b,
    ensures
        render_spec(eval_spec(a)) == render_spec(eval_spec(b)),
{
}

} // verus!
