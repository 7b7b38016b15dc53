//! One line in, one line out.

use vstd::prelude::*;
use crate::evaluator::{eval, outcome, output_line};
use crate::grammar::calculation;
use crate::parser::parse;

verus! {

/// What is shown for `line`: ` = ` and the rendered value where the line
/// parses and has a value, and the message of the failure where it does not.
pub open spec fn reply_text(line: Seq<char>) -> Seq<char> {
    match calculation(line) {
        Ok(calc) => match outcome(calc) {
            Ok((_, text)) => output_line(text),
            Err(e) => e.spec_message(),
        },
        Err(e) => e.spec_message(),
    }
}

/// Parses and evaluates `line`, and says what is to be shown for it. No line
/// makes it fail: every failure has its message.
pub fn reply(line: &str) -> (shown: String)
    ensures
        shown@ == reply_text(line@),
{
    match parse(line) {
        Ok(calc) => match eval(calc) {
            Ok(found) => found.output(),
            Err(e) => String::from_str(e.message()),
        },
        Err(e) => String::from_str(e.message()),
    }
}

} // verus!
