//! What holds of every evaluation, and of the calculations that are written
//! without parentheses and powers.

use vstd::prelude::*;
use crate::evaluation::{
    combine, postfix, value, Arithmetic, EvaluationError, Request, State, Step,
};
use crate::grammar::{
    byte_of, calculation, chain, is_numeral, link, number, operand, operator, rest, spaces,
    Outcome,
};
use crate::reading::{lemma_calculation_formed, numerals};
use crate::syntax::{Expr, Operator, Span, Tier};

verus! {

/// Every number that `steps` puts on the stack is a decimal numeral of
/// `input`.
pub open spec fn pushes_numerals(steps: Seq<Step>, input: Seq<u8>) -> bool {
    forall|i: int|
        0 <= i < steps.len() ==> (#[trigger] steps[i] matches Step::Push(span) ==> span.within(
            input,
        ) && is_numeral(span.text(input)))
}

/// The steps of a tree whose numbers are numerals put only numerals on the
/// stack.
pub proof fn lemma_postfix_pushes_numerals(tree: Expr, input: Seq<u8>)
    requires
        numerals(tree, input),
    ensures
        pushes_numerals(postfix(tree), input),
    decreases tree,
{
    match tree {
        Expr::Number(span) => {},
        Expr::Group(inner) => {
            lemma_postfix_pushes_numerals(*inner, input);
        },
        Expr::Binary { op, lhs, rhs } => {
            lemma_postfix_pushes_numerals(*lhs, input);
            lemma_postfix_pushes_numerals(*rhs, input);
        },
    }
}

/// Where the pending steps put only numerals on the stack, a conversion that
/// the evaluation asks for is that of a decimal numeral of the input.
pub proof fn lemma_request_names_numeral(state: State, input: Seq<u8>)
    requires
        pushes_numerals(state.pending, input),
    ensures
        state.request() matches Request::Convert(span) ==> span.within(input) && is_numeral(
            span.text(input),
        ),
{
}

/// Where the pending steps put only numerals on the stack, they still do
/// after the host's answer.
pub proof fn lemma_supply_keeps_numerals(state: State, input: Seq<u8>, answer: u64)
    requires
        pushes_numerals(state.pending, input),
    ensures
        pushes_numerals(state.supply(answer).pending, input),
{
    if state.pending.len() > 0 {
        assert forall|i: int| 0 <= i < state.pending.skip(1).len() implies (
        #[trigger] state.pending.skip(1)[i] matches Step::Push(span) ==> span.within(input)
            && is_numeral(span.text(input))) by {
            assert(state.pending.skip(1)[i] == state.pending[i + 1]);
        }
    }
}

/// The evaluation of a calculation asks only for conversions of decimal
/// numerals of its input, and, run to its end by a host that answers in
/// `arith`, yields the value of the calculation's tree. What it yields thus
/// depends on the text and on the host's arithmetic, and on nothing else.
pub proof fn lemma_calculation_runs_to_value(arith: Arithmetic, s: Seq<u8>)
    requires
        s.len() <= usize::MAX,
    ensures
        calculation(s) matches Ok(tree) ==> {
            &&& pushes_numerals(State::start(tree).pending, s)
            &&& State::start(tree).run(s, arith) == value(tree, s, arith)
        },
{
    if let Ok(tree) = calculation(s) {
        lemma_calculation_formed(s);
        lemma_postfix_pushes_numerals(tree, s);
        crate::evaluation::lemma_run_yields_value(tree, s, arith);
    }
}

/// From `at` on, directly behind a number, the input goes on with `items`
/// and nothing else: for each item whitespace, its operator (one of
/// `+ - * /`), whitespace and the number at its span; then whitespace to the
/// end of the input.
pub open spec fn continues(s: Seq<u8>, at: int, items: Seq<(Operator, Span)>) -> bool
    decreases items.len(),
{
    if items.len() == 0 {
        at + spaces(s, at) == s.len()
    } else {
        let (op, span) = items[0];
        let op_at = at + spaces(s, at);
        let start = op_at + 1 + spaces(s, op_at + 1);
        &&& 0 <= op_at < s.len()
        &&& s[op_at] == byte_of(op)
        &&& op != Operator::Power
        &&& span.start == start
        &&& span.start <= span.end
        &&& number(s, start) == Some((span.end - span.start) as nat)
        &&& continues(s, span.end as int, items.skip(1))
    }
}

/// The input is written without parentheses and powers: whitespace, the
/// number at `first`, and then `items` to the end of the input.
pub open spec fn flat(s: Seq<u8>, first: Span, items: Seq<(Operator, Span)>) -> bool {
    &&& s.len() <= usize::MAX
    &&& first.start == spaces(s, 0)
    &&& first.start <= first.end
    &&& number(s, first.start as int) == Some((first.end - first.start) as nat)
    &&& continues(s, first.end as int, items)
}

/// The sum so far and the operator that will join the next product to it,
/// if a product has been closed yet.
pub type Sum = Option<(Result<u64, EvaluationError>, Operator)>;

/// The sum `sum` with the product `product` joined to it.
pub open spec fn close(arith: Arithmetic, sum: Sum, product: Result<u64, EvaluationError>) -> Result<
    u64,
    EvaluationError,
> {
    match sum {
        None => product,
        Some((so_far, op)) => combine(arith, op, so_far, product),
    }
}

/// The usual reading of `items` from left to right, with `*` and `/` before
/// `+` and `-`: a `*` or `/` extends the product at hand by the next number,
/// a `+` or `-` joins the product at hand to the sum and begins a new product
/// with the next number. At the end the last product is joined to the sum.
pub open spec fn scan(
    arith: Arithmetic,
    input: Seq<u8>,
    sum: Sum,
    product: Result<u64, EvaluationError>,
    items: Seq<(Operator, Span)>,
) -> Result<u64, EvaluationError>
    decreases items.len(),
{
    if items.len() == 0 {
        close(arith, sum, product)
    } else {
        let (op, span) = items[0];
        let next = Ok((arith.convert)(span.text(input)));
        if op.tier() == Tier::Term {
            scan(arith, input, sum, combine(arith, op, product, next), items.skip(1))
        } else {
            scan(arith, input, Some((close(arith, sum, product), op)), next, items.skip(1))
        }
    }
}

/// The value that ordinary arithmetic gives to a number followed by `items`.
pub open spec fn standard(
    arith: Arithmetic,
    input: Seq<u8>,
    first: Span,
    items: Seq<(Operator, Span)>,
) -> Result<u64, EvaluationError> {
    scan(arith, input, None, Ok((arith.convert)(first.text(input))), items)
}

/// The items that are left when the `*` and `/` at the front of `items` are
/// taken off.
pub open spec fn behind_product(items: Seq<(Operator, Span)>) -> Seq<(Operator, Span)>
    decreases items.len(),
{
    if items.len() > 0 && items[0].0.tier() == Tier::Term {
        behind_product(items.skip(1))
    } else {
        items
    }
}

/// A number that is followed by one of `+ - * /` or by the end of the input
/// is a factor by itself.
proof fn lemma_factor_is_number(s: Seq<u8>, span: Span, items: Seq<(Operator, Span)>)
    requires
        s.len() <= usize::MAX,
        span.start <= span.end,
        number(s, span.start as int) == Some((span.end - span.start) as nat),
        continues(s, span.end as int, items),
    ensures
        chain(Tier::Factor, s, span.start as int) == (Outcome::Matched {
            tree: Expr::Number(span),
            len: (span.end - span.start) as nat,
        }),
{
    let tree = Expr::Number(span);
    assert(operand(s, span.start as int) == Outcome::Matched {
        tree,
        len: (span.end - span.start) as nat,
    });
    assert(rest(Tier::Factor, s, span.end as int, tree) == Outcome::Matched { tree, len: 0 });
}

/// Behind a number, the term takes the `*` and `/` at the front of `items`,
/// and its value is the product that the usual reading computes.
proof fn lemma_rest_of_term(
    arith: Arithmetic,
    s: Seq<u8>,
    at: int,
    left: Expr,
    items: Seq<(Operator, Span)>,
)
    requires
        s.len() <= usize::MAX,
        0 <= at,
        continues(s, at, items),
    ensures
        rest(Tier::Term, s, at, left) is Matched,
        continues(
            s,
            at + rest(Tier::Term, s, at, left)->len,
            behind_product(items),
        ),
        forall|sum: Sum|
            scan(arith, s, sum, value(left, s, arith), items) == scan(
                arith,
                s,
                sum,
                value(rest(Tier::Term, s, at, left)->tree, s, arith),
                behind_product(items),
            ),
    decreases items.len(),
{
    if items.len() > 0 && items[0].0.tier() == Tier::Term {
        let (op, span) = items[0];
        let gap = spaces(s, at);
        let lead = gap + 1 + spaces(s, at + gap + 1);
        assert(operator(Tier::Term, s[at + gap]) == Some(op));
        lemma_factor_is_number(s, span, items.skip(1));
        assert(link(Tier::Term, s, at + lead) == chain(Tier::Factor, s, span.start as int));
        let joined = Expr::Binary { op, lhs: Box::new(left), rhs: Box::new(Expr::Number(span)) };
        lemma_rest_of_term(arith, s, span.end as int, joined, items.skip(1));
        let found = rest(Tier::Term, s, span.end as int, joined);
        assert(value(Expr::Number(span), s, arith) == Ok::<u64, EvaluationError>(
            (arith.convert)(span.text(s)),
        ));
        assert(rest(Tier::Term, s, at, left) == found.after(
            lead + (span.end - span.start) as nat,
        ));
        assert forall|sum: Sum|
            scan(arith, s, sum, value(left, s, arith), items) == scan(
                arith,
                s,
                sum,
                value(rest(Tier::Term, s, at, left)->tree, s, arith),
                behind_product(items),
            ) by {
            assert(scan(arith, s, sum, value(left, s, arith), items) == scan(
                arith,
                s,
                sum,
                value(joined, s, arith),
                items.skip(1),
            ));
            assert(scan(arith, s, sum, value(joined, s, arith), items.skip(1)) == scan(
                arith,
                s,
                sum,
                value(found->tree, s, arith),
                behind_product(items.skip(1)),
            ));
        }
    } else if items.len() > 0 {
        assert(operator(Tier::Term, s[at + spaces(s, at)]) is None);
    }
}

/// Where no product is open, the usual reading goes on from the closed sum.
proof fn lemma_scan_from_sum(
    arith: Arithmetic,
    s: Seq<u8>,
    sum: Sum,
    product: Result<u64, EvaluationError>,
    items: Seq<(Operator, Span)>,
)
    requires
        items.len() > 0 ==> items[0].0.tier() != Tier::Term,
    ensures
        scan(arith, s, sum, product, items) == scan(
            arith,
            s,
            None,
            close(arith, sum, product),
            items,
        ),
{
}

/// `behind_product` leaves no `*` or `/` at the front.
proof fn lemma_behind_product(items: Seq<(Operator, Span)>)
    ensures
        behind_product(items).len() > 0 ==> behind_product(items)[0].0.tier() != Tier::Term,
        behind_product(items).len() <= items.len(),
    decreases items.len(),
{
    if items.len() > 0 && items[0].0.tier() == Tier::Term {
        lemma_behind_product(items.skip(1));
    }
}

/// Behind a term, the expression takes all of `items`, and its value is what
/// the usual reading computes.
proof fn lemma_rest_of_expr(
    arith: Arithmetic,
    s: Seq<u8>,
    at: int,
    left: Expr,
    items: Seq<(Operator, Span)>,
)
    requires
        s.len() <= usize::MAX,
        0 <= at,
        continues(s, at, items),
        items.len() > 0 ==> items[0].0.tier() != Tier::Term,
    ensures
        rest(Tier::Expr, s, at, left) is Matched,
        ({
            let end = at + rest(Tier::Expr, s, at, left)->len;
            end + spaces(s, end) == s.len()
        }),
        value(rest(Tier::Expr, s, at, left)->tree, s, arith) == scan(
            arith,
            s,
            None,
            value(left, s, arith),
            items,
        ),
    decreases items.len(),
{
    if items.len() > 0 {
        let (op, span) = items[0];
        let after = items.skip(1);
        let gap = spaces(s, at);
        let lead = gap + 1 + spaces(s, at + gap + 1);
        assert(operator(Tier::Expr, s[at + gap]) == Some(op));
        let number = Expr::Number(span);
        lemma_factor_is_number(s, span, after);
        lemma_rest_of_term(arith, s, span.end as int, number, after);
        lemma_behind_product(after);
        let term = rest(Tier::Term, s, span.end as int, number);
        assert(chain(Tier::Term, s, span.start as int) == term.after(
            (span.end - span.start) as nat,
        ));
        assert(link(Tier::Expr, s, at + lead) == chain(Tier::Term, s, span.start as int));
        let joined = Expr::Binary { op, lhs: Box::new(left), rhs: Box::new(term->tree) };
        let end = span.end + term->len;
        lemma_rest_of_expr(arith, s, end, joined, behind_product(after));
        let sum: Sum = Some((value(left, s, arith), op));
        lemma_scan_from_sum(arith, s, sum, value(term->tree, s, arith), behind_product(after));
        let found = rest(Tier::Expr, s, end, joined);
        assert(link(Tier::Expr, s, at + lead) == term.after((span.end - span.start) as nat));
        assert(rest(Tier::Expr, s, at, left) == found.after(
            lead + ((span.end - span.start) as nat + term->len),
        ));
        assert(value(joined, s, arith) == close(arith, sum, value(term->tree, s, arith)));
        assert(scan(arith, s, None, value(left, s, arith), items) == scan(
            arith,
            s,
            sum,
            value(number, s, arith),
            after,
        ));
        assert(scan(arith, s, sum, value(number, s, arith), after) == scan(
            arith,
            s,
            sum,
            value(term->tree, s, arith),
            behind_product(after),
        ));
    }
}

/// An expression written without parentheses and powers is a calculation,
/// and its value is the one that ordinary arithmetic gives it: `*` and `/`
/// before `+` and `-`, and from left to right among equals.
pub proof fn lemma_flat_calculation_is_standard(
    arith: Arithmetic,
    s: Seq<u8>,
    first: Span,
    items: Seq<(Operator, Span)>,
)
    requires
        flat(s, first, items),
    ensures
        calculation(s) is Ok,
        value(calculation(s)->Ok_0, s, arith) == standard(arith, s, first, items),
{
    let number = Expr::Number(first);
    lemma_factor_is_number(s, first, items);
    lemma_rest_of_term(arith, s, first.end as int, number, items);
    lemma_behind_product(items);
    let term = rest(Tier::Term, s, first.end as int, number);
    assert(chain(Tier::Term, s, first.start as int) == term.after(
        (first.end - first.start) as nat,
    ));
    assert(link(Tier::Expr, s, first.start as int) == chain(Tier::Term, s, first.start as int));
    let end = first.end + term->len;
    lemma_rest_of_expr(arith, s, end, term->tree, behind_product(items));
    lemma_scan_from_sum(arith, s, None, value(term->tree, s, arith), behind_product(items));
}

} // verus!
