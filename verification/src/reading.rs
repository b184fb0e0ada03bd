//! What it means that a tree is written in a text, and that this is what the
//! grammar reads from it.

use vstd::prelude::*;
use crate::grammar::{
    all_digits, byte_of, calculation, chain, digits, is_digit, is_numeral, is_unsigned_numeral,
    link, number, operand, operator, remaining, rest, spaces, Outcome, SyntaxError, CLOSE,
    MINUS, OPEN, POINT,
};
use crate::syntax::{Expr, Tier};

verus! {

/// Every number in `tree` covers a decimal numeral of `input`.
pub open spec fn numerals(tree: Expr, input: Seq<u8>) -> bool
    decreases tree,
{
    match tree {
        Expr::Number(span) => span.within(input) && is_numeral(span.text(input)),
        Expr::Group(inner) => numerals(*inner, input),
        Expr::Binary { op, lhs, rhs } => numerals(*lhs, input) && numerals(*rhs, input),
    }
}

/// Where `tree` is written in `s` from offset `at` on, the offset behind it.
///
/// A number is written where `s` holds a number of its span. A group is
/// written as `(`, what it encloses and `)`. An operator's tree is written
/// as its left operand, the operator's byte and its right operand.
/// Whitespace may stand between any two of these, and only there.
pub open spec fn written(tree: Expr, s: Seq<u8>, at: int) -> Option<int>
    decreases tree,
{
    match tree {
        Expr::Number(span) => if span.start == at && span.start <= span.end && number(s, at)
            == Some((span.end - span.start) as nat) {
            Some(span.end as int)
        } else {
            None
        },
        Expr::Group(inner) => if 0 <= at < s.len() && s[at] == OPEN {
            match written(*inner, s, at + 1 + spaces(s, at + 1)) {
                Some(end) => {
                    let close = end + spaces(s, end);
                    if 0 <= close < s.len() && s[close] == CLOSE {
                        Some(close + 1)
                    } else {
                        None
                    }
                },
                None => None,
            }
        } else {
            None
        },
        Expr::Binary { op, lhs, rhs } => match written(*lhs, s, at) {
            Some(end) => {
                let op_at = end + spaces(s, end);
                if 0 <= op_at < s.len() && s[op_at] == byte_of(op) {
                    written(*rhs, s, op_at + 1 + spaces(s, op_at + 1))
                } else {
                    None
                }
            },
            None => None,
        },
    }
}

/// `s` is `tree`, written out: `tree` has the shape that the precedence of
/// the operators and their grouping from the left give it, and `s` holds it
/// from its first byte to its last, but for whitespace at both ends.
pub open spec fn reads(tree: Expr, s: Seq<u8>) -> bool {
    &&& tree.shaped(Tier::Expr)
    &&& written(tree, s, spaces(s, 0) as int) matches Some(end)
    &&& end + spaces(s, end) == s.len()
}

/// Behind the whitespace at `at` stands no operator of a tier of rank
/// `level` or more.
pub open spec fn quiet(level: nat, s: Seq<u8>, at: int) -> bool {
    let next = at + spaces(s, at);
    0 <= next < s.len() ==> {
        &&& level <= 0 ==> operator(Tier::Expr, s[next]) is None
        &&& level <= 1 ==> operator(Tier::Term, s[next]) is None
        &&& level <= 2 ==> operator(Tier::Factor, s[next]) is None
    }
}

/// Whitespace counted from inside the input ends inside the input.
pub proof fn lemma_spaces_bounded(s: Seq<u8>, at: int)
    requires
        0 <= at <= s.len(),
    ensures
        at + spaces(s, at) <= s.len(),
    decreases s.len() - at,
{
    if at < s.len() && spaces(s, at) > 0 {
        lemma_spaces_bounded(s, at + 1);
    }
}

/// The bytes that `digits` counts are digits and lie inside the input.
pub proof fn lemma_digits_counted(s: Seq<u8>, at: int)
    requires
        0 <= at <= s.len(),
    ensures
        at + digits(s, at) <= s.len(),
        forall|i: int| at <= i < at + digits(s, at) ==> is_digit(#[trigger] s[i]),
    decreases s.len() - at,
{
    if at < s.len() && digits(s, at) > 0 {
        lemma_digits_counted(s, at + 1);
    }
}

/// What `number` measures is a decimal numeral inside the input.
pub proof fn lemma_number_is_numeral(s: Seq<u8>, at: int)
    requires
        0 <= at <= s.len(),
        number(s, at) is Some,
    ensures
        0 < number(s, at)->0,
        at + number(s, at)->0 <= s.len(),
        is_numeral(s.subrange(at, at + number(s, at)->0)),
{
    let len = number(s, at)->0;
    let sign: nat = if at < s.len() && s[at] == MINUS { 1 } else { 0 };
    let whole = digits(s, at + sign);
    let point = at + sign + whole;
    lemma_digits_counted(s, at + sign);
    let fraction = if point < s.len() && s[point] == POINT { digits(s, point + 1) } else { 0 };
    if fraction > 0 {
        lemma_digits_counted(s, point + 1);
    }
    let text = s.subrange(at, at + len);
    let body = s.subrange(at + sign, at + len);
    assert(is_unsigned_numeral(body)) by {
        if fraction == 0 {
            assert(all_digits(body));
        } else {
            let split = whole as int;
            assert(body[split] == POINT);
            assert(all_digits(body.take(split)));
            assert(all_digits(body.skip(split + 1)));
        }
    }
    if sign == 0 {
        assert(text =~= body);
    } else {
        assert(text.skip(1) =~= body);
    }
}

/// What the grammar reads as an operand is an operand, written where it was
/// read.
proof fn lemma_operand_formed(s: Seq<u8>, at: int)
    requires
        0 <= at <= s.len() <= usize::MAX,
    ensures
        operand(s, at) matches Outcome::Matched { tree, len } ==> {
            &&& tree.operand()
            &&& numerals(tree, s)
            &&& 0 < len
            &&& at + len <= s.len()
            &&& written(tree, s, at) == Some(at + len)
        },
    decreases remaining(s, at), 0nat, 0nat,
{
    if number(s, at) is Some {
        lemma_number_is_numeral(s, at);
    } else if at < s.len() {
        lemma_spaces_bounded(s, at + 1);
        let open = 1 + spaces(s, at + 1);
        lemma_chain_formed(Tier::Expr, s, at + open);
        if let Outcome::Matched { tree, len } = chain(Tier::Expr, s, at + open) {
            lemma_spaces_bounded(s, at + open + len);
        }
    }
}

/// What the grammar reads as a link of a chain fits the chain's tier and is
/// written where it was read.
pub proof fn lemma_link_formed(tier: Tier, s: Seq<u8>, at: int)
    requires
        0 <= at <= s.len() <= usize::MAX,
    ensures
        link(tier, s, at) matches Outcome::Matched { tree, len } ==> {
            &&& tree.fits(tier)
            &&& numerals(tree, s)
            &&& 0 < len
            &&& at + len <= s.len()
            &&& written(tree, s, at) == Some(at + len)
        },
    decreases remaining(s, at), 3 - tier.rank(), 0nat,
{
    match tier {
        Tier::Expr => lemma_chain_formed(Tier::Term, s, at),
        Tier::Term => lemma_chain_formed(Tier::Factor, s, at),
        Tier::Factor => lemma_operand_formed(s, at),
    }
}

/// What the grammar reads as a chain has the shape of its tier and is
/// written where it was read.
proof fn lemma_chain_formed(tier: Tier, s: Seq<u8>, at: int)
    requires
        0 <= at <= s.len() <= usize::MAX,
    ensures
        chain(tier, s, at) matches Outcome::Matched { tree, len } ==> {
            &&& tree.shaped(tier)
            &&& numerals(tree, s)
            &&& 0 < len
            &&& at + len <= s.len()
            &&& written(tree, s, at) == Some(at + len)
        },
    decreases remaining(s, at), 3 - tier.rank(), 2nat,
{
    lemma_link_formed(tier, s, at);
    if let Outcome::Matched { tree, len } = link(tier, s, at) {
        lemma_rest_formed(tier, s, at, at + len, tree);
    }
}

/// A chain that goes on behind a well-formed tree written from `start` to
/// `at` stays well formed and written from `start`.
proof fn lemma_rest_formed(tier: Tier, s: Seq<u8>, start: int, at: int, left: Expr)
    requires
        0 <= at <= s.len() <= usize::MAX,
        left.shaped(tier),
        numerals(left, s),
        written(left, s, start) == Some(at),
    ensures
        rest(tier, s, at, left) matches Outcome::Matched { tree, len } ==> {
            &&& tree.shaped(tier)
            &&& numerals(tree, s)
            &&& at + len <= s.len()
            &&& written(tree, s, start) == Some(at + len)
        },
    decreases remaining(s, at), 3 - tier.rank(), 1nat,
{
    lemma_spaces_bounded(s, at);
    let gap = spaces(s, at);
    if at + gap < s.len() && operator(tier, s[at + gap]) is Some {
        let op = operator(tier, s[at + gap])->0;
        lemma_spaces_bounded(s, at + gap + 1);
        let lead = gap + 1 + spaces(s, at + gap + 1);
        lemma_link_formed(tier, s, at + lead);
        if let Outcome::Matched { tree: right, len } = link(tier, s, at + lead) {
            let joined = Expr::Binary { op, lhs: Box::new(left), rhs: Box::new(right) };
            assert(written(joined, s, start) == Some(at + lead + len));
            lemma_rest_formed(tier, s, start, at + lead + len, joined);
        }
    }
}

/// The tree of a calculation is written in its input, and each of its
/// numbers covers a decimal numeral of the input.
pub proof fn lemma_calculation_formed(s: Seq<u8>)
    requires
        s.len() <= usize::MAX,
    ensures
        calculation(s) matches Ok(tree) ==> reads(tree, s) && numerals(tree, s),
{
    lemma_spaces_bounded(s, 0);
    lemma_chain_formed(Tier::Expr, s, spaces(s, 0) as int);
    if let Outcome::Matched { tree, len } = chain(Tier::Expr, s, spaces(s, 0) as int) {
        lemma_spaces_bounded(s, (spaces(s, 0) + len) as int);
    }
}

/// What is written in the input begins and ends inside it.
pub proof fn lemma_written_inside(tree: Expr, s: Seq<u8>, at: int)
    requires
        0 <= at,
        written(tree, s, at) is Some,
    ensures
        at < written(tree, s, at)->0 <= s.len(),
    decreases tree,
{
    match tree {
        Expr::Number(span) => {
            if at <= s.len() {
                lemma_number_is_numeral(s, at);
            }
        },
        Expr::Group(inner) => {
            lemma_written_inside(*inner, s, at + 1 + spaces(s, at + 1));
        },
        Expr::Binary { op, lhs, rhs } => {
            lemma_written_inside(*lhs, s, at);
            let end = written(*lhs, s, at)->0;
            let op_at = end + spaces(s, end);
            lemma_written_inside(*rhs, s, op_at + 1 + spaces(s, op_at + 1));
        },
    }
}

/// Where an operand is written, the grammar reads it.
proof fn lemma_operand_yields(tree: Expr, s: Seq<u8>, at: int)
    requires
        0 <= at,
        s.len() <= usize::MAX,
        tree.operand(),
        written(tree, s, at) is Some,
    ensures
        operand(s, at) == (Outcome::Matched {
            tree,
            len: (written(tree, s, at)->0 - at) as nat,
        }),
    decreases tree, 0nat,
{
    lemma_written_inside(tree, s, at);
    match tree {
        Expr::Number(span) => {},
        Expr::Group(inner) => {
            let inner_at = at + 1 + spaces(s, at + 1);
            let end = written(*inner, s, inner_at)->0;
            lemma_written_inside(*inner, s, inner_at);
            assert(digits(s, at) == 0);
            assert(number(s, at) is None);
            assert(operator(Tier::Expr, CLOSE) is None);
            assert(operator(Tier::Term, CLOSE) is None);
            assert(operator(Tier::Factor, CLOSE) is None);
            lemma_chain_yields(Tier::Expr, *inner, s, inner_at);
        },
        Expr::Binary { .. } => {},
    }
}

/// Where a tree that fits a chain's tier is written, and no tighter operator
/// follows it, the grammar reads it as a link of the chain.
proof fn lemma_link_yields(tier: Tier, tree: Expr, s: Seq<u8>, at: int)
    requires
        0 <= at,
        s.len() <= usize::MAX,
        tree.fits(tier),
        written(tree, s, at) is Some,
        quiet(tier.rank() + 1, s, written(tree, s, at)->0),
    ensures
        link(tier, s, at) == (Outcome::Matched {
            tree,
            len: (written(tree, s, at)->0 - at) as nat,
        }),
    decreases tree, 3 * (3 - tier.rank()),
{
    match tier {
        Tier::Expr => lemma_chain_yields(Tier::Term, tree, s, at),
        Tier::Term => lemma_chain_yields(Tier::Factor, tree, s, at),
        Tier::Factor => lemma_operand_yields(tree, s, at),
    }
}

/// Read from where a tree of its tier is written, a chain comes to hold that
/// tree and goes on behind it.
proof fn lemma_chain_reaches(tier: Tier, tree: Expr, s: Seq<u8>, at: int)
    requires
        0 <= at,
        s.len() <= usize::MAX,
        tree.shaped(tier),
        written(tree, s, at) is Some,
        quiet(tier.rank() + 1, s, written(tree, s, at)->0),
    ensures
        chain(tier, s, at) == rest(tier, s, written(tree, s, at)->0, tree).after(
            (written(tree, s, at)->0 - at) as nat,
        ),
    decreases tree, 3 * (3 - tier.rank()) + 1,
{
    let end = written(tree, s, at)->0;
    lemma_written_inside(tree, s, at);
    match tree {
        Expr::Binary { op, lhs, rhs } if op.tier() == tier => {
            let mid = written(*lhs, s, at)->0;
            lemma_written_inside(*lhs, s, at);
            let gap = spaces(s, mid);
            let lead = gap + 1 + spaces(s, mid + gap + 1);
            lemma_written_inside(*rhs, s, mid + lead);
            assert(operator(tier, s[mid + gap]) == Some(op));
            assert(quiet(tier.rank() + 1, s, mid));
            lemma_chain_reaches(tier, *lhs, s, at);
            lemma_link_yields(tier, *rhs, s, mid + lead);
            let len = (end - (mid + lead)) as nat;
            assert(rest(tier, s, mid, *lhs) == rest(tier, s, end, tree).after(lead + len));
        },
        _ => {
            assert(tree.fits(tier));
            lemma_link_yields(tier, tree, s, at);
        },
    }
}

/// Where a tree of the shape of a tier is written, and no operator of the
/// tier or a tighter one follows it, the grammar reads it as a chain.
proof fn lemma_chain_yields(tier: Tier, tree: Expr, s: Seq<u8>, at: int)
    requires
        0 <= at,
        s.len() <= usize::MAX,
        tree.shaped(tier),
        written(tree, s, at) is Some,
        quiet(tier.rank(), s, written(tree, s, at)->0),
    ensures
        chain(tier, s, at) == (Outcome::Matched {
            tree,
            len: (written(tree, s, at)->0 - at) as nat,
        }),
    decreases tree, 3 * (3 - tier.rank()) + 2,
{
    lemma_chain_reaches(tier, tree, s, at);
    let end = written(tree, s, at)->0;
    assert(rest(tier, s, end, tree) == Outcome::Matched { tree, len: 0 });
}

/// The grammar reads `tree` from `s` exactly where `s` is `tree`, written
/// out. So a text has at most one tree, and it is the one that the
/// precedence of the operators and their grouping from the left call for.
pub proof fn lemma_calculation_reads(s: Seq<u8>, tree: Expr)
    requires
        s.len() <= usize::MAX,
    ensures
        calculation(s) == Ok::<Expr, SyntaxError>(tree) <==> reads(tree, s),
{
    lemma_calculation_formed(s);
    if calculation(s) == Ok::<Expr, SyntaxError>(tree) {
        assert(reads(tree, s));
    }
    if reads(tree, s) {
        let lead = spaces(s, 0) as int;
        let end = written(tree, s, lead)->0;
        lemma_written_inside(tree, s, lead);
        lemma_chain_yields(Tier::Expr, tree, s, lead);
        assert(chain(Tier::Expr, s, lead) == Outcome::Matched { tree, len: (end - lead) as nat });
        assert(calculation(s) == Ok::<Expr, SyntaxError>(tree));
    }
}

} // verus!
