//! A calculator for arithmetic expressions over `+ - * / ^`, numerals and
//! parentheses.
//!
//! [`calculate`] parses the text of a calculation and evaluates it. The
//! library decides what is computed and in which order; the arithmetic on
//! binary64 numbers is the host's, handed in as two functions. A host that
//! cannot hand in functions answers the requests of an
//! [`Evaluation`](evaluation::Evaluation) one at a time.

use vstd::prelude::*;
use vstd::slice::slice_subrange;
use vstd::utf8::encode_utf8;
use crate::evaluation::{
    forbidden, lemma_run_yields_value, value, Arithmetic, Evaluation, EvaluationError, Request,
    State,
};
use crate::grammar::{calculation, is_numeral, SyntaxError};
use crate::laws::{
    lemma_postfix_pushes_numerals, lemma_request_names_numeral, lemma_supply_keeps_numerals,
    pushes_numerals,
};
use crate::parser::CalculatorParser;
use crate::syntax::Operator;

pub mod evaluation;
pub mod grammar;
pub mod laws;
pub mod parser;
pub mod reading;
pub mod syntax;

verus! {

/// Why a calculation has no result.
#[derive(Clone, Copy, Debug, PartialEq, Eq, Structural)]
pub enum CalculationError {
    /// The text is not a calculation.
    Syntax(SyntaxError),
    /// The calculation cannot be carried out.
    Evaluation(EvaluationError),
}

/// The result of the calculation written in `s`, in the arithmetic `arith`:
/// the value of its tree, or the reason why it has none.
pub open spec fn outcome(s: Seq<u8>, arith: Arithmetic) -> Result<u64, CalculationError> {
    match calculation(s) {
        Ok(tree) => match value(tree, s, arith) {
            Ok(result) => Ok(result),
            Err(error) => Err(CalculationError::Evaluation(error)),
        },
        Err(error) => Err(CalculationError::Syntax(error)),
    }
}

/// Whatever `convert` and `apply` return is what `arith` says.
pub open spec fn computes<C: Fn(&[u8]) -> u64, A: Fn(Operator, u64, u64) -> u64>(
    convert: C,
    apply: A,
    arith: Arithmetic,
) -> bool {
    &&& forall|text: &[u8], number: u64|
        call_ensures(convert, (text,), number) ==> number == (arith.convert)(text@)
    &&& forall|op: Operator, lhs: u64, rhs: u64, result: u64|
        call_ensures(apply, (op, lhs, rhs), result) ==> result == (arith.apply)(op, lhs, rhs)
}

/// `convert` takes every decimal numeral, and `apply` every operation but a
/// division by zero.
pub open spec fn serves<C: Fn(&[u8]) -> u64, A: Fn(Operator, u64, u64) -> u64>(
    convert: C,
    apply: A,
) -> bool {
    &&& forall|text: &[u8]| is_numeral(text@) ==> call_requires(convert, (text,))
    &&& forall|op: Operator, lhs: u64, rhs: u64|
        !forbidden(op, rhs) ==> call_requires(apply, (op, lhs, rhs))
}

/// Answers the requests of `evaluation` with `convert` and `apply` until it
/// ends.
fn drive<C: Fn(&[u8]) -> u64, A: Fn(Operator, u64, u64) -> u64>(
    evaluation: Evaluation,
    input: &[u8],
    convert: C,
    apply: A,
) -> (result: Result<u64, EvaluationError>)
    requires
        pushes_numerals(evaluation@.pending, input@),
        serves(convert, apply),
    ensures
        forall|arith: Arithmetic|
            computes(convert, apply, arith) ==> result == evaluation@.run(input@, arith),
{
    let mut current = evaluation;
    loop
        invariant
            pushes_numerals(current@.pending, input@),
            serves(convert, apply),
            forall|arith: Arithmetic|
                computes(convert, apply, arith) ==> current@.run(input@, arith) == evaluation@.run(
                    input@,
                    arith,
                ),
        decreases current@.pending.len(),
    {
        let ghost before = current@;
        match current.request() {
            Request::Convert(span) => {
                proof {
                    lemma_request_names_numeral(before, input@);
                }
                let text = slice_subrange(input, span.start, span.end);
                let number = convert(text);
                proof {
                    lemma_supply_keeps_numerals(before, input@, number);
                    assert forall|arith: Arithmetic|
                        computes(convert, apply, arith) implies before.supply(number).run(
                        input@,
                        arith,
                    ) == before.run(input@, arith) by {
                        assert(number == (arith.convert)(text@));
                    }
                }
                current = current.supply(number);
            },
            Request::Apply { op, lhs, rhs } => {
                let result = apply(op, lhs, rhs);
                proof {
                    lemma_supply_keeps_numerals(before, input@, result);
                    assert forall|arith: Arithmetic|
                        computes(convert, apply, arith) implies before.supply(result).run(
                        input@,
                        arith,
                    ) == before.run(input@, arith) by {
                        assert(result == (arith.apply)(op, lhs, rhs));
                    }
                }
                current = current.supply(result);
            },
            Request::Finished(result) => {
                return Ok(result);
            },
            Request::Failed(error) => {
                return Err(error);
            },
        }
    }
}

/// Evaluates the calculation written in `input`. The grammar is read over
/// the UTF-8 bytes of `input`.
///
/// Numbers are the 64 bits of their binary64 encoding. `convert` is asked
/// for the number that a decimal numeral writes, `apply` for the result of
/// an operator on two numbers; `apply` is never asked to divide by zero.
///
/// Fails with [`CalculationError::Syntax`] exactly where `input` is not a
/// calculation, and nothing is computed then. Otherwise the result is the
/// value of the expression in the arithmetic of `convert` and `apply`, or
/// [`CalculationError::Evaluation`] where that value asks for a division by
/// zero.
pub fn calculate<C: Fn(&[u8]) -> u64, A: Fn(Operator, u64, u64) -> u64>(
    input: String,
    convert: C,
    apply: A,
) -> (result: Result<u64, CalculationError>)
    requires
        serves(convert, apply),
    ensures
        forall|arith: Arithmetic|
            computes(convert, apply, arith) ==> result == outcome(encode_utf8(input@), arith),
        match calculation(encode_utf8(input@)) {
            Ok(_) => !(result matches Err(CalculationError::Syntax(_))),
            Err(error) => result == Err::<u64, CalculationError>(CalculationError::Syntax(error)),
        },
{
    let bytes = input.as_str().as_bytes();
    match CalculatorParser::parse_bytes(bytes) {
        Ok(node) => {
            let evaluation = Evaluation::start(&node);
            proof {
                lemma_postfix_pushes_numerals(node@, bytes@);
                assert forall|arith: Arithmetic|
                    State::start(node@).run(bytes@, arith) == value(node@, bytes@, arith) by {
                    lemma_run_yields_value(node@, bytes@, arith);
                }
            }
            match drive(evaluation, bytes, convert, apply) {
                Ok(result) => Ok(result),
                Err(error) => Err(CalculationError::Evaluation(error)),
            }
        },
        Err(error) => Err(CalculationError::Syntax(error)),
    }
}

/// A calculation has one result. Whatever [`calculate`] returns for a text
/// and a host whose functions compute `arith`, it is the outcome of the text
/// in `arith`: two evaluations of one text agree bit for bit.
pub proof fn lemma_calculation_repeats<C: Fn(&[u8]) -> u64, A: Fn(Operator, u64, u64) -> u64>(
    convert: C,
    apply: A,
    arith: Arithmetic,
    s: Seq<u8>,
    first: Result<u64, CalculationError>,
    second: Result<u64, CalculationError>,
)
    requires
        computes(convert, apply, arith),
        forall|any: Arithmetic| computes(convert, apply, any) ==> first == outcome(s, any),
        forall|any: Arithmetic| computes(convert, apply, any) ==> second == outcome(s, any),
    ensures
        first == second,
        first == outcome(s, arith),
{
}

} // verus!
