use tiny_calc_core::error::{EvalError, ParseError};
use tiny_calc_core::reply::reply;

#[test]
fn reply_shows_the_value_after_an_equals_sign() {
    assert_eq!(reply("1 + 2 * 3"), " = 7");
    assert_eq!(reply("7 #x"), " = 0x7");
    assert_eq!(reply("7 #b"), " = 0b111");
    assert_eq!(reply("  (1 - 3) * 4  "), " = -8");
    assert_eq!(reply("2 ^ 2 ^ 3"), " = 256");
}

#[test]
fn reply_marks_a_syntax_error() {
    assert_eq!(reply("1 +"), " Syntax error");
    assert_eq!(reply("(1 + 2"), " Syntax error");
    assert_eq!(reply("1 2"), " Syntax error");
    assert_eq!(reply(""), " Syntax error");
    assert_eq!(reply("hello"), " Syntax error");
}

#[test]
fn reply_names_the_other_failures() {
    assert_eq!(reply("1 / 0"), " Division by zero");
    assert_eq!(reply("2 ^ -1"), " Negative exponent");
    assert_eq!(reply("9223372036854775807 + 1"), " Overflow");
    assert_eq!(reply("9223372036854775808"), " Overflow");
}

#[test]
fn each_failure_has_its_message() {
    assert_eq!(ParseError::SyntaxError.message(), " Syntax error");
    assert_eq!(ParseError::LiteralOverflow.message(), " Overflow");
    assert_eq!(EvalError::LiteralOverflow.message(), " Overflow");
    assert_eq!(EvalError::DivisionByZero.message(), " Division by zero");
    assert_eq!(EvalError::NegativeExponent.message(), " Negative exponent");
}

#[test]
fn one_bad_line_leaves_the_next_untouched() {
    assert_eq!(reply("1 / 0"), " Division by zero");
    assert_eq!(reply("1 / 1"), " = 1");
    assert_eq!(reply("("), " Syntax error");
    assert_eq!(reply("(2)"), " = 2");
}
