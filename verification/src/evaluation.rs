//! Evaluation of a parsed expression.
//!
//! The library decides the order of the operations; the arithmetic itself is
//! the host's. A number is held as the 64 bits of its IEEE 754 binary64
//! encoding. An [`Evaluation`] tells the host what to compute next (a
//! [`Request`]), the host answers with the bits of the result, and so on
//! until the evaluation has finished or failed.

use vstd::prelude::*;
use vstd::std_specs::vec::axiom_vec_index_decreases;
use crate::syntax::{joined, Expr, Node, Operator, Span};

verus! {

/// Why an evaluation failed.
#[derive(Clone, Copy, Debug, PartialEq, Eq, Structural)]
pub enum EvaluationError {
    /// The right operand of a `/` was zero.
    DivisionByZero,
}

/// One step of an expression in postfix order.
#[derive(Clone, Copy, Debug, PartialEq, Eq, Structural)]
pub enum Step {
    /// Put the value of the numeral at this span on the stack.
    Push(Span),
    /// Replace the two topmost values by the result of the operator.
    Apply(Operator),
}

/// What an evaluation asks of its host, or how it ended.
#[derive(Clone, Copy, Debug, PartialEq, Eq, Structural)]
pub enum Request {
    /// Convert the numeral at this span of the input to a number.
    Convert(Span),
    /// Compute `lhs op rhs`.
    Apply { op: Operator, lhs: u64, rhs: u64 },
    /// The evaluation is complete, with this value.
    Finished(u64),
    /// The evaluation cannot go on.
    Failed(EvaluationError),
}

/// The arithmetic of a host: how it converts the text of a numeral and what
/// it computes for an operator and two operands.
pub struct Arithmetic {
    pub convert: spec_fn(Seq<u8>) -> u64,
    pub apply: spec_fn(Operator, u64, u64) -> u64,
}

/// The bits encode positive or negative zero.
pub open spec fn is_zero(bits: u64) -> bool {
    bits == 0 || bits == 0x8000_0000_0000_0000
}

/// The operation cannot be carried out: it divides by zero.
pub open spec fn forbidden(op: Operator, rhs: u64) -> bool {
    op == Operator::Divide && is_zero(rhs)
}

/// What `op` makes of two operands that were themselves computed: the first
/// failure among them, a division by zero, or what the host computes.
pub open spec fn combine(
    arith: Arithmetic,
    op: Operator,
    left: Result<u64, EvaluationError>,
    right: Result<u64, EvaluationError>,
) -> Result<u64, EvaluationError> {
    match left {
        Ok(lhs) => match right {
            Ok(rhs) => if forbidden(op, rhs) {
                Err(EvaluationError::DivisionByZero)
            } else {
                Ok((arith.apply)(op, lhs, rhs))
            },
            Err(error) => Err(error),
        },
        Err(error) => Err(error),
    }
}

/// The value of `tree`, read over `input`, in the arithmetic `arith`: a
/// numeral is converted, a group has the value of what it encloses, and an
/// operator is applied to the value of its left operand and the value of its
/// right operand, in this order, unless it is a division by zero.
pub open spec fn value(tree: Expr, input: Seq<u8>, arith: Arithmetic) -> Result<
    u64,
    EvaluationError,
>
    decreases tree,
{
    match tree {
        Expr::Number(span) => Ok((arith.convert)(span.text(input))),
        Expr::Group(inner) => value(*inner, input, arith),
        Expr::Binary { op, lhs, rhs } => combine(
            arith,
            op,
            value(*lhs, input, arith),
            value(*rhs, input, arith),
        ),
    }
}

/// The steps of `tree` in postfix order: left operand, right operand,
/// operator.
pub open spec fn postfix(tree: Expr) -> Seq<Step>
    decreases tree,
{
    match tree {
        Expr::Number(span) => seq![Step::Push(span)],
        Expr::Group(inner) => postfix(*inner),
        Expr::Binary { op, lhs, rhs } => postfix(*lhs) + postfix(*rhs) + seq![Step::Apply(op)],
    }
}

/// Run on a stack of `depth` values, `steps` never finds fewer than two
/// operands for an operator and leaves exactly one value.
pub open spec fn balanced(steps: Seq<Step>, depth: nat) -> bool
    decreases steps.len(),
{
    if steps.len() == 0 {
        depth == 1
    } else {
        match steps[0] {
            Step::Push(_) => balanced(steps.skip(1), depth + 1),
            Step::Apply(_) => depth >= 2 && balanced(steps.skip(1), (depth - 1) as nat),
        }
    }
}

/// The state of an evaluation: the steps still to take and the values
/// computed so far, the latest last.
pub struct State {
    pub pending: Seq<Step>,
    pub stack: Seq<u64>,
}

impl State {
    /// The state in which the evaluation of `tree` begins.
    pub open spec fn start(tree: Expr) -> State {
        State { pending: postfix(tree), stack: Seq::empty() }
    }

    /// What the evaluation asks for in this state.
    pub open spec fn request(self) -> Request {
        if self.pending.len() == 0 {
            Request::Finished(self.stack.last())
        } else {
            match self.pending[0] {
                Step::Push(span) => Request::Convert(span),
                Step::Apply(op) => {
                    let lhs = self.stack[self.stack.len() - 2];
                    let rhs = self.stack[self.stack.len() - 1];
                    if forbidden(op, rhs) {
                        Request::Failed(EvaluationError::DivisionByZero)
                    } else {
                        Request::Apply { op, lhs, rhs }
                    }
                },
            }
        }
    }

    /// The state after the host has answered the request with `answer`. A
    /// converted number goes on the stack; the result of an operator takes
    /// the place of its two operands. An evaluation that has finished or
    /// failed stays as it is.
    pub open spec fn supply(self, answer: u64) -> State {
        match self.request() {
            Request::Convert(_) => State {
                pending: self.pending.skip(1),
                stack: self.stack.push(answer),
            },
            Request::Apply { .. } => State {
                pending: self.pending.skip(1),
                stack: self.stack.take(self.stack.len() - 2).push(answer),
            },
            Request::Finished(_) | Request::Failed(_) => self,
        }
    }

    /// How the evaluation ends when a host with the arithmetic `arith`
    /// answers every request from this state on.
    pub open spec fn run(self, input: Seq<u8>, arith: Arithmetic) -> Result<u64, EvaluationError>
        decreases self.pending.len(),
    {
        match self.request() {
            Request::Convert(span) => self.supply((arith.convert)(span.text(input))).run(
                input,
                arith,
            ),
            Request::Apply { op, lhs, rhs } => self.supply((arith.apply)(op, lhs, rhs)).run(
                input,
                arith,
            ),
            Request::Finished(result) => Ok(result),
            Request::Failed(error) => Err(error),
        }
    }
}

/// The steps of a tree need nothing below them on the stack and add one
/// value to it.
pub proof fn lemma_postfix_balanced(tree: Expr, then: Seq<Step>, depth: nat)
    ensures
        balanced(postfix(tree) + then, depth) == balanced(then, depth + 1),
    decreases tree,
{
    match tree {
        Expr::Number(span) => {
            assert((postfix(tree) + then).skip(1) =~= then);
        },
        Expr::Group(inner) => {
            lemma_postfix_balanced(*inner, then, depth);
        },
        Expr::Binary { op, lhs, rhs } => {
            let apply = seq![Step::Apply(op)];
            assert(postfix(tree) + then =~= postfix(*lhs) + (postfix(*rhs) + (apply + then)));
            lemma_postfix_balanced(*lhs, postfix(*rhs) + (apply + then), depth);
            lemma_postfix_balanced(*rhs, apply + then, depth + 1);
            assert((apply + then).skip(1) =~= then);
        },
    }
}

/// Taking the steps of a tree, with a host that answers in `arith`, comes to
/// the same as putting the tree's value on the stack, or fails as the tree's
/// value does.
pub proof fn lemma_run_postfix(
    tree: Expr,
    then: Seq<Step>,
    stack: Seq<u64>,
    input: Seq<u8>,
    arith: Arithmetic,
)
    ensures
        (State { pending: postfix(tree) + then, stack }).run(input, arith) == match value(
            tree,
            input,
            arith,
        ) {
            Ok(result) => (State { pending: then, stack: stack.push(result) }).run(input, arith),
            Err(error) => Err(error),
        },
    decreases tree,
{
    match tree {
        Expr::Number(span) => {
            assert((postfix(tree) + then).skip(1) =~= then);
        },
        Expr::Group(inner) => {
            lemma_run_postfix(*inner, then, stack, input, arith);
        },
        Expr::Binary { op, lhs, rhs } => {
            let apply = seq![Step::Apply(op)];
            assert(postfix(tree) + then =~= postfix(*lhs) + (postfix(*rhs) + (apply + then)));
            lemma_run_postfix(*lhs, postfix(*rhs) + (apply + then), stack, input, arith);
            if let Ok(left) = value(*lhs, input, arith) {
                lemma_run_postfix(*rhs, apply + then, stack.push(left), input, arith);
                if let Ok(right) = value(*rhs, input, arith) {
                    let operands = stack.push(left).push(right);
                    assert((apply + then).skip(1) =~= then);
                    assert(operands.take(operands.len() - 2) =~= stack);
                }
            }
        },
    }
}

/// An evaluation, run to its end by a host that answers in `arith`, yields
/// the value of the tree it was started for.
pub proof fn lemma_run_yields_value(tree: Expr, input: Seq<u8>, arith: Arithmetic)
    ensures
        State::start(tree).run(input, arith) == value(tree, input, arith),
{
    let none = Seq::<Step>::empty();
    let empty = Seq::<u64>::empty();
    assert(postfix(tree) + none =~= postfix(tree));
    lemma_run_postfix(tree, none, empty, input, arith);
}

/// Whether the bits encode positive or negative zero.
pub fn zero(bits: u64) -> (r: bool)
    ensures
        r == is_zero(bits),
{
    bits == 0 || bits == 0x8000_0000_0000_0000
}

/// Appends the steps of `node` to `steps`.
fn emit(node: &Node, steps: &mut Vec<Step>)
    ensures
        final(steps)@ == old(steps)@ + postfix(node@),
    decreases *node,
{
    match node {
        Node::Number(span) => {
            steps.push(Step::Push(*span));
        },
        Node::Group(inner) => {
            emit(inner, steps);
        },
        Node::Chain { first, rest } => {
            emit(first, steps);
            let mut done: usize = 0;
            while done < rest.len()
                invariant
                    done <= rest.len(),
                    *node == (Node::Chain { first: *first, rest: *rest }),
                    steps@ == old(steps)@ + postfix(joined(first@, rest@, done as nat)),
                decreases rest.len() - done,
            {
                proof {
                    axiom_vec_index_decreases(*rest, done as int);
                    assert(decreases_to!(*node => node->rest));
                }
                emit(&rest[done].1, steps);
                steps.push(Step::Apply(rest[done].0));
                done += 1;
                assert(steps@ =~= old(steps)@ + postfix(joined(first@, rest@, done as nat)));
            }
        },
    }
}

/// An evaluation in progress.
#[derive(Debug)]
pub struct Evaluation {
    steps: Vec<Step>,
    next: usize,
    stack: Vec<u64>,
}

impl View for Evaluation {
    type V = State;

    closed spec fn view(&self) -> State {
        State { pending: self.steps@.skip(self.next as int), stack: self.stack@ }
    }
}

impl Evaluation {
    #[verifier::type_invariant]
    spec fn sound(self) -> bool {
        &&& self.next <= self.steps.len()
        &&& balanced(self.steps@.skip(self.next as int), self.stack@.len())
    }

    /// Begins the evaluation of `node`.
    pub fn start(node: &Node) -> (evaluation: Evaluation)
        ensures
            evaluation@ == State::start(node@),
    {
        let mut steps: Vec<Step> = Vec::new();
        emit(node, &mut steps);
        proof {
            assert(steps@ =~= postfix(node@));
            assert(steps@.skip(0) =~= steps@);
            assert(postfix(node@) + Seq::<Step>::empty() =~= postfix(node@));
            lemma_postfix_balanced(node@, Seq::empty(), 0);
        }
        Evaluation { steps, next: 0, stack: Vec::new() }
    }

    /// What the host is to do next, or how the evaluation ended.
    pub fn request(&self) -> (request: Request)
        ensures
            request == self@.request(),
    {
        proof {
            use_type_invariant(self);
        }
        if self.next == self.steps.len() {
            Request::Finished(self.stack[self.stack.len() - 1])
        } else {
            match self.steps[self.next] {
                Step::Push(span) => Request::Convert(span),
                Step::Apply(op) => {
                    let lhs = self.stack[self.stack.len() - 2];
                    let rhs = self.stack[self.stack.len() - 1];
                    if op == Operator::Divide && zero(rhs) {
                        Request::Failed(EvaluationError::DivisionByZero)
                    } else {
                        Request::Apply { op, lhs, rhs }
                    }
                },
            }
        }
    }

    /// Takes the host's answer to the current request and moves on. Where
    /// the evaluation has finished or failed, nothing changes.
    pub fn supply(self, answer: u64) -> (evaluation: Evaluation)
        ensures
            evaluation@ == self@.supply(answer),
    {
        proof {
            use_type_invariant(&self);
        }
        let request = self.request();
        let ghost before = self@;
        let Evaluation { steps, next, mut stack } = self;
        proof {
            if next < steps.len() {
                assert(steps@.skip(next as int).skip(1) =~= steps@.skip(next + 1));
            }
        }
        match request {
            Request::Convert(_) => {
                stack.push(answer);
                Evaluation { steps, next: next + 1, stack }
            },
            Request::Apply { .. } => {
                stack.pop();
                stack.pop();
                stack.push(answer);
                assert(stack@ =~= before.stack.take(before.stack.len() - 2).push(answer));
                Evaluation { steps, next: next + 1, stack }
            },
            Request::Finished(_) | Request::Failed(_) => Evaluation { steps, next, stack },
        }
    }
}

} // verus!
