//! The grammar of the expression language, as functions on the bytes of the
//! input.
//!
//! ```text
//! calculation = expr, end of input
//! expr        = term,    { ("+" | "-"), term }
//! term        = factor,  { ("*" | "/"), factor }
//! factor      = operand, { "^", operand }
//! operand     = number | "(", expr, ")"
//! number      = ["-"], digit, { digit }, [ ".", digit, { digit } ]
//! ```
//!
//! Whitespace (space, tab, line feed, carriage return) may stand before and
//! after every token, never inside a number. Every repetition takes as much
//! as it can, and an operator commits: once it is read, its right operand
//! must follow.

use vstd::prelude::*;
use crate::syntax::{Expr, Operator, Span, Tier};

verus! {

/// What the grammar asked for at the place where the input stopped matching.
#[derive(Clone, Copy, Debug, PartialEq, Eq, Structural)]
pub enum Expected {
    /// A number or an opening parenthesis.
    Operand,
    /// An operator or the parenthesis that closes an open group.
    ClosingParenthesis,
    /// An operator or the end of the input.
    EndOfInput,
}

/// The input is not a calculation.
#[derive(Clone, Copy, Debug, PartialEq, Eq, Structural)]
pub struct SyntaxError {
    /// The byte offset at which the input stopped matching the grammar.
    pub position: usize,
    /// What the grammar asked for there.
    pub expected: Expected,
}

/// What a production makes of the input from some offset on.
pub enum Outcome {
    /// The production matched `len` bytes and read `tree` from them.
    Matched { tree: Expr, len: nat },
    /// The input cannot be a calculation: at offset `at` the grammar asked for
    /// `expected` and found something else.
    Failed { at: int, expected: Expected },
}

/// The byte `+`.
pub const PLUS: u8 = 0x2b;

/// The byte `-`, an operator behind an operand and a sign before a digit.
pub const MINUS: u8 = 0x2d;

/// The byte `*`.
pub const STAR: u8 = 0x2a;

/// The byte `/`.
pub const SLASH: u8 = 0x2f;

/// The byte `^`.
pub const CARET: u8 = 0x5e;

/// The byte `(`.
pub const OPEN: u8 = 0x28;

/// The byte `)`.
pub const CLOSE: u8 = 0x29;

/// The byte `.`.
pub const POINT: u8 = 0x2e;

impl Outcome {
    /// The same outcome, seen from `lead` bytes further to the left.
    pub open spec fn after(self, lead: nat) -> Outcome {
        match self {
            Outcome::Matched { tree, len } => Outcome::Matched { tree, len: lead + len },
            Outcome::Failed { at, expected } => Outcome::Failed { at, expected },
        }
    }
}

/// `b` is a space, a tab, a line feed or a carriage return.
pub open spec fn is_space(b: u8) -> bool {
    b == 0x20 || b == 0x09 || b == 0x0a || b == 0x0d
}

/// `b` is one of the digits `0` to `9`.
pub open spec fn is_digit(b: u8) -> bool {
    0x30 <= b <= 0x39
}

/// The number of whitespace bytes that stand at `at` and directly after it.
pub open spec fn spaces(s: Seq<u8>, at: int) -> nat
    decreases s.len() - at,
{
    if 0 <= at < s.len() && is_space(s[at]) {
        1 + spaces(s, at + 1)
    } else {
        0
    }
}

/// The number of digits that stand at `at` and directly after it.
pub open spec fn digits(s: Seq<u8>, at: int) -> nat
    decreases s.len() - at,
{
    if 0 <= at < s.len() && is_digit(s[at]) {
        1 + digits(s, at + 1)
    } else {
        0
    }
}

/// The length of the number that starts at `at`, if one does: an optional
/// minus sign, one or more digits, and, where a point and a digit follow, the
/// point and all the digits after it.
pub open spec fn number(s: Seq<u8>, at: int) -> Option<nat> {
    let sign: nat = if 0 <= at < s.len() && s[at] == MINUS { 1 } else { 0 };
    let whole = digits(s, at + sign);
    let point = at + sign + whole;
    let fraction = if 0 <= point < s.len() && s[point] == POINT { digits(s, point + 1) } else { 0 };
    if whole == 0 {
        None
    } else if fraction == 0 {
        Some(sign + whole)
    } else {
        Some(sign + whole + 1 + fraction)
    }
}

/// `text` is one or more digits and nothing else.
pub open spec fn all_digits(text: Seq<u8>) -> bool {
    text.len() > 0 && forall|i: int| 0 <= i < text.len() ==> is_digit(#[trigger] text[i])
}

/// `text` is a decimal numeral without a sign: digits, or digits, a point
/// and digits.
pub open spec fn is_unsigned_numeral(text: Seq<u8>) -> bool {
    all_digits(text) || exists|point: int|
        0 <= point < text.len() && text[point] == POINT && #[trigger] all_digits(text.take(point))
            && all_digits(text.skip(point + 1))
}

/// `text` is a decimal numeral, with or without a minus sign before it.
pub open spec fn is_numeral(text: Seq<u8>) -> bool {
    is_unsigned_numeral(text) || (text.len() > 0 && text[0] == MINUS && is_unsigned_numeral(
        text.skip(1),
    ))
}

/// The operator that byte `b` writes in a chain of `tier`, if any.
pub open spec fn operator(tier: Tier, b: u8) -> Option<Operator> {
    match tier {
        Tier::Expr => if b == PLUS {
            Some(Operator::Add)
        } else if b == MINUS {
            Some(Operator::Subtract)
        } else {
            None
        },
        Tier::Term => if b == STAR {
            Some(Operator::Multiply)
        } else if b == SLASH {
            Some(Operator::Divide)
        } else {
            None
        },
        Tier::Factor => if b == CARET {
            Some(Operator::Power)
        } else {
            None
        },
    }
}

/// The byte that writes `op`.
pub open spec fn byte_of(op: Operator) -> u8 {
    match op {
        Operator::Add => PLUS,
        Operator::Subtract => MINUS,
        Operator::Multiply => STAR,
        Operator::Divide => SLASH,
        Operator::Power => CARET,
    }
}

/// The bytes of the input that are left from `at` on.
pub open spec fn remaining(s: Seq<u8>, at: int) -> nat {
    if at <= s.len() {
        (s.len() - at) as nat
    } else {
        0
    }
}

/// `operand = number | "(" expr ")"`, read at `at`.
pub open spec fn operand(s: Seq<u8>, at: int) -> Outcome
    decreases remaining(s, at), 0nat, 0nat,
{
    match number(s, at) {
        Some(len) => Outcome::Matched {
            tree: Expr::Number(Span { start: at as usize, end: (at + len) as usize }),
            len,
        },
        None => if 0 <= at < s.len() && s[at] == OPEN {
            let open = 1 + spaces(s, at + 1);
            match chain(Tier::Expr, s, at + open) {
                Outcome::Matched { tree, len } => {
                    let close = open + len + spaces(s, at + open + len);
                    if at + close < s.len() && s[at + close] == CLOSE {
                        Outcome::Matched { tree: Expr::Group(Box::new(tree)), len: close + 1 }
                    } else {
                        Outcome::Failed { at: at + close, expected: Expected::ClosingParenthesis }
                    }
                },
                Outcome::Failed { at, expected } => Outcome::Failed { at, expected },
            }
        } else {
            Outcome::Failed { at, expected: Expected::Operand }
        },
    }
}

/// What a chain of `tier` is made of: a chain of the next tighter tier, or,
/// for a factor, an operand.
pub open spec fn link(tier: Tier, s: Seq<u8>, at: int) -> Outcome
    decreases remaining(s, at), 3 - tier.rank(), 0nat,
{
    match tier {
        Tier::Expr => chain(Tier::Term, s, at),
        Tier::Term => chain(Tier::Factor, s, at),
        Tier::Factor => operand(s, at),
    }
}

/// `chain = link { operator link }`, read at `at`: the links of the chain,
/// joined from the left.
pub open spec fn chain(tier: Tier, s: Seq<u8>, at: int) -> Outcome
    decreases remaining(s, at), 3 - tier.rank(), 2nat,
{
    match link(tier, s, at) {
        Outcome::Matched { tree, len } => rest(tier, s, at + len, tree).after(len),
        Outcome::Failed { at, expected } => Outcome::Failed { at, expected },
    }
}

/// `{ operator link }`, read at `at`, where `left` is what the chain holds so
/// far. Each operator found takes `left` as its left operand.
pub open spec fn rest(tier: Tier, s: Seq<u8>, at: int, left: Expr) -> Outcome
    decreases remaining(s, at), 3 - tier.rank(), 1nat,
{
    let gap = spaces(s, at);
    if 0 <= at + gap < s.len() && operator(tier, s[at + gap]) is Some {
        let op = operator(tier, s[at + gap])->0;
        let lead = gap + 1 + spaces(s, at + gap + 1);
        match link(tier, s, at + lead) {
            Outcome::Matched { tree: right, len } => {
                let joined = Expr::Binary { op, lhs: Box::new(left), rhs: Box::new(right) };
                rest(tier, s, at + lead + len, joined).after(lead + len)
            },
            Outcome::Failed { at, expected } => Outcome::Failed { at, expected },
        }
    } else {
        Outcome::Matched { tree: left, len: 0 }
    }
}

/// `calculation = expr, end of input`: the tree of the whole input, or the
/// place where it stops being a calculation.
pub open spec fn calculation(s: Seq<u8>) -> Result<Expr, SyntaxError> {
    let lead = spaces(s, 0);
    match chain(Tier::Expr, s, lead as int) {
        Outcome::Matched { tree, len } => {
            let end = lead + len + spaces(s, (lead + len) as int);
            if end == s.len() {
                Ok(tree)
            } else {
                Err(SyntaxError { position: end as usize, expected: Expected::EndOfInput })
            }
        },
        Outcome::Failed { at, expected } => Err(SyntaxError { position: at as usize, expected }),
    }
}

} // verus!
