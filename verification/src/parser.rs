//! The parser: a recursive descent over the bytes of the input that reads
//! what the grammar describes.

use vstd::prelude::*;
use vstd::string::StringSliceAdditionalSpecFns;
use crate::grammar::{
    calculation, chain, digits, is_digit, is_space, link, number, operand, operator, rest, spaces,
    Expected, Outcome, SyntaxError, CARET, CLOSE, MINUS, OPEN, PLUS, POINT, SLASH, STAR,
};
use crate::reading::{
    lemma_calculation_formed, lemma_calculation_reads, lemma_link_formed, numerals, reads,
};
use crate::syntax::{joined, lemma_joined_prefix, Expr, Node, Operator, Span, Tier};

verus! {

/// The parser of calculations.
#[derive(Clone, Copy, Debug)]
pub struct CalculatorParser;

/// What one production of the parser returns: the node and the offset behind
/// it, or the error that ends the parse.
type Progress = Result<(Node, usize), SyntaxError>;

/// `found`, returned for a production read at `at` in an input of `total`
/// bytes, says what `outcome` says, and the node it holds is flat.
spec fn agrees(found: Progress, outcome: Outcome, at: usize, total: nat) -> bool {
    match found {
        Ok((node, next)) => {
            &&& at <= next <= total
            &&& outcome == Outcome::Matched { tree: node@, len: (next - at) as nat }
            &&& node.flat()
        },
        Err(error) => {
            &&& error.position <= total
            &&& outcome == Outcome::Failed { at: error.position as int, expected: error.expected }
        },
    }
}

/// Whether `b` is whitespace.
fn space(b: u8) -> (r: bool)
    ensures
        r == is_space(b),
{
    b == 0x20 || b == 0x09 || b == 0x0a || b == 0x0d
}

/// Whether `b` is a digit.
fn digit(b: u8) -> (r: bool)
    ensures
        r == is_digit(b),
{
    0x30 <= b && b <= 0x39
}

/// The offset of the first byte from `at` on that is no whitespace.
fn skip_spaces(input: &[u8], at: usize) -> (next: usize)
    requires
        at <= input.len(),
    ensures
        at <= next <= input.len(),
        next - at == spaces(input@, at as int),
{
    let mut next = at;
    while next < input.len() && space(input[next])
        invariant
            at <= next <= input.len(),
            spaces(input@, at as int) == (next - at) + spaces(input@, next as int),
        decreases input.len() - next,
    {
        next += 1;
    }
    next
}

/// The offset of the first byte from `at` on that is no digit.
fn skip_digits(input: &[u8], at: usize) -> (next: usize)
    requires
        at <= input.len(),
    ensures
        at <= next <= input.len(),
        next - at == digits(input@, at as int),
{
    let mut next = at;
    while next < input.len() && digit(input[next])
        invariant
            at <= next <= input.len(),
            digits(input@, at as int) == (next - at) + digits(input@, next as int),
        decreases input.len() - next,
    {
        next += 1;
    }
    next
}

/// The offset behind the number that starts at `at`, if one does.
fn scan_number(input: &[u8], at: usize) -> (end: Option<usize>)
    requires
        at <= input.len(),
    ensures
        match end {
            Some(end) => at < end <= input.len() && number(input@, at as int) == Some(
                (end - at) as nat,
            ),
            None => number(input@, at as int) is None,
        },
{
    let first = if at < input.len() && input[at] == MINUS {
        at + 1
    } else {
        at
    };
    let point = skip_digits(input, first);
    if point == first {
        return None;
    }
    if point < input.len() && input[point] == POINT {
        let end = skip_digits(input, point + 1);
        if end > point + 1 {
            return Some(end);
        }
    }
    Some(point)
}

/// The operator that `b` writes in a chain of `tier`, if any.
fn operator_of(tier: Tier, b: u8) -> (op: Option<Operator>)
    ensures
        op == operator(tier, b),
{
    match tier {
        Tier::Expr => if b == PLUS {
            Some(Operator::Add)
        } else if b == MINUS {
            Some(Operator::Subtract)
        } else {
            None
        },
        Tier::Term => if b == STAR {
            Some(Operator::Multiply)
        } else if b == SLASH {
            Some(Operator::Divide)
        } else {
            None
        },
        Tier::Factor => if b == CARET {
            Some(Operator::Power)
        } else {
            None
        },
    }
}

/// Reads a number or a parenthesized expression at `at`.
fn parse_operand(input: &[u8], at: usize) -> (found: Progress)
    requires
        at <= input.len(),
    ensures
        agrees(found, operand(input@, at as int), at, input@.len()),
    decreases input.len() - at, 0nat, 0nat,
{
    match scan_number(input, at) {
        Some(end) => Ok((Node::Number(Span { start: at, end }), end)),
        None => {
            if at < input.len() && input[at] == OPEN {
                let inner_at = skip_spaces(input, at + 1);
                match parse_chain(input, Tier::Expr, inner_at) {
                    Ok((inner, inner_end)) => {
                        let close = skip_spaces(input, inner_end);
                        if close < input.len() && input[close] == CLOSE {
                            Ok((Node::Group(Box::new(inner)), close + 1))
                        } else {
                            Err(
                                SyntaxError {
                                    position: close,
                                    expected: Expected::ClosingParenthesis,
                                },
                            )
                        }
                    },
                    Err(error) => Err(error),
                }
            } else {
                Err(SyntaxError { position: at, expected: Expected::Operand })
            }
        },
    }
}

/// Reads at `at` what a chain of `tier` is made of.
fn parse_link(input: &[u8], tier: Tier, at: usize) -> (found: Progress)
    requires
        at <= input.len(),
    ensures
        agrees(found, link(tier, input@, at as int), at, input@.len()),
    decreases input.len() - at, 3 - tier.rank(), 0nat,
{
    match tier {
        Tier::Expr => parse_chain(input, Tier::Term, at),
        Tier::Term => parse_chain(input, Tier::Factor, at),
        Tier::Factor => parse_operand(input, at),
    }
}

/// The node of a chain with the given links: the first link by itself where
/// no other follows it.
fn link_up(first: Node, links: Vec<(Operator, Node)>) -> (node: Node)
    requires
        first.flat(),
        links.len() > 0 ==> (Node::Chain { first: Box::new(first), rest: links }).flat(),
    ensures
        node@ == joined(first@, links@, links@.len()),
        node.flat(),
{
    if links.len() == 0 {
        first
    } else {
        Node::Chain { first: Box::new(first), rest: links }
    }
}

/// Reads a chain of `tier` at `at`, link by link.
fn parse_chain(input: &[u8], tier: Tier, at: usize) -> (found: Progress)
    requires
        at <= input.len(),
    ensures
        agrees(found, chain(tier, input@, at as int), at, input@.len()),
    decreases input.len() - at, 3 - tier.rank(), 2nat,
{
    let (first, first_end) = match parse_link(input, tier, at) {
        Ok(first) => first,
        Err(error) => {
            return Err(error);
        },
    };
    proof {
        lemma_link_formed(tier, input@, at as int);
    }
    let mut links: Vec<(Operator, Node)> = Vec::new();
    let mut next = first_end;
    loop
        invariant
            at <= next <= input.len(),
            first.flat(),
            first@.fits(tier),
            forall|i: int|
                0 <= i < links.len() ==> {
                    &&& (#[trigger] links[i]).0.tier() == tier
                    &&& links[i].1.flat()
                    &&& links[i].1@.fits(tier)
                },
            chain(tier, input@, at as int) == rest(
                tier,
                input@,
                next as int,
                joined(first@, links@, links@.len()),
            ).after((next - at) as nat),
        decreases input.len() - next,
    {
        let op_at = skip_spaces(input, next);
        if op_at >= input.len() {
            return Ok((link_up(first, links), next));
        }
        match operator_of(tier, input[op_at]) {
            None => {
                return Ok((link_up(first, links), next));
            },
            Some(op) => {
                let right_at = skip_spaces(input, op_at + 1);
                match parse_link(input, tier, right_at) {
                    Ok((right, right_end)) => {
                        proof {
                            lemma_link_formed(tier, input@, right_at as int);
                            lemma_joined_prefix(
                                first@,
                                links@,
                                links@.push((op, right)),
                                links@.len(),
                            );
                        }
                        links.push((op, right));
                        next = right_end;
                    },
                    Err(error) => {
                        return Err(error);
                    },
                }
            },
        }
    }
}

impl CalculatorParser {
    /// Parses the bytes of a calculation.
    ///
    /// Returns the tree that is written in `input`, its chains held flat and
    /// each of its numbers a decimal numeral of `input`. Where no tree is
    /// written in `input`, returns the offset at which `input` stops
    /// matching the grammar and what the grammar asked for there.
    pub fn parse_bytes(input: &[u8]) -> (parsed: Result<Node, SyntaxError>)
        ensures
            match parsed {
                Ok(node) => {
                    &&& calculation(input@) == Ok::<Expr, SyntaxError>(node@)
                    &&& reads(node@, input@)
                    &&& numerals(node@, input@)
                    &&& node.flat()
                },
                Err(error) => {
                    &&& calculation(input@) == Err::<Expr, SyntaxError>(error)
                    &&& error.position <= input@.len()
                    &&& forall|tree: Expr| !reads(tree, input@)
                },
            },
    {
        let start = skip_spaces(input, 0);
        proof {
            lemma_calculation_formed(input@);
            assert forall|tree: Expr| calculation(input@) is Err implies !reads(tree, input@) by {
                lemma_calculation_reads(input@, tree);
            }
        }
        match parse_chain(input, Tier::Expr, start) {
            Ok((node, next)) => {
                let end = skip_spaces(input, next);
                if end == input.len() {
                    Ok(node)
                } else {
                    Err(SyntaxError { position: end, expected: Expected::EndOfInput })
                }
            },
            Err(error) => Err(error),
        }
    }

    /// Parses a calculation; the grammar is read over the UTF-8 bytes of
    /// `input`, and offsets count bytes.
    pub fn parse(input: &str) -> (parsed: Result<Node, SyntaxError>)
        ensures
            match parsed {
                Ok(node) => {
                    &&& calculation(input.spec_bytes()) == Ok::<Expr, SyntaxError>(node@)
                    &&& reads(node@, input.spec_bytes())
                    &&& numerals(node@, input.spec_bytes())
                    &&& node.flat()
                },
                Err(error) => {
                    &&& calculation(input.spec_bytes()) == Err::<Expr, SyntaxError>(error)
                    &&& error.position <= input.spec_bytes().len()
                    &&& forall|tree: Expr| !reads(tree, input.spec_bytes())
                },
            },
    {
        Self::parse_bytes(input.as_bytes())
    }
}

} // verus!
