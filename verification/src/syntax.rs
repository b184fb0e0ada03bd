//! The tree of an arithmetic expression: as the parser holds it, and as what
//! it means.

use vstd::prelude::*;

verus! {

/// A binary operator of the expression language.
#[derive(Clone, Copy, Debug, PartialEq, Eq, Structural)]
pub enum Operator {
    Add,
    Subtract,
    Multiply,
    Divide,
    Power,
}

/// A precedence tier. `Expr` binds loosest, `Factor` tightest.
#[derive(Clone, Copy, Debug, PartialEq, Eq, Structural)]
pub enum Tier {
    Expr,
    Term,
    Factor,
}

/// A half-open range of byte offsets into the input text.
#[derive(Clone, Copy, Debug, PartialEq, Eq, Structural)]
pub struct Span {
    pub start: usize,
    pub end: usize,
}

/// A node of the tree that the parser builds.
///
/// A chain `a op b op c` of one tier is held flat: the first link, and then
/// each operator with the link behind it, in the order of the text.
#[derive(Debug, PartialEq, Eq)]
pub enum Node {
    /// A numeral; the span covers its text, sign included.
    Number(Span),
    /// A parenthesized expression.
    Group(Box<Node>),
    /// A chain of links that operators of one tier join.
    Chain { first: Box<Node>, rest: Vec<(Operator, Node)> },
}

/// An expression, as what it means: every operator with its two operands.
///
/// A chain `a op b op c` of one tier is `Binary(op, Binary(op, a, b), c)`,
/// so the tree itself says in which order the operators apply. This is the
/// view of a [`Node`].
#[derive(Debug, PartialEq, Eq)]
pub enum Expr {
    /// A numeral; the span covers its text, sign included.
    Number(Span),
    /// A parenthesized expression.
    Group(Box<Expr>),
    /// One operator applied to two operands.
    Binary { op: Operator, lhs: Box<Expr>, rhs: Box<Expr> },
}

impl Tier {
    /// How tightly the tier binds: 0 for `Expr`, 1 for `Term`, 2 for `Factor`.
    pub open spec fn rank(self) -> nat {
        match self {
            Tier::Expr => 0,
            Tier::Term => 1,
            Tier::Factor => 2,
        }
    }
}

impl Operator {
    /// The tier whose chains the operator joins.
    pub open spec fn tier(self) -> Tier {
        match self {
            Operator::Add | Operator::Subtract => Tier::Expr,
            Operator::Multiply | Operator::Divide => Tier::Term,
            Operator::Power => Tier::Factor,
        }
    }
}

impl Span {
    /// The bytes of `input` that the span covers.
    pub open spec fn text(self, input: Seq<u8>) -> Seq<u8> {
        input.subrange(self.start as int, self.end as int)
    }

    /// The span lies inside `input`.
    pub open spec fn within(self, input: Seq<u8>) -> bool {
        self.start <= self.end <= input.len()
    }
}

impl Expr {
    /// The tree has the shape of a chain of `tier`: every operator in it binds
    /// at least as tightly as `tier`, its left operand is a chain of the
    /// operator's own tier, and its right operand binds strictly tighter.
    /// A numeral or a parenthesized expression can stand at any tier.
    pub open spec fn shaped(self, tier: Tier) -> bool
        decreases self,
    {
        match self {
            Expr::Number(_) => true,
            Expr::Group(inner) => inner.shaped(Tier::Expr),
            Expr::Binary { op, lhs, rhs } => {
                &&& tier.rank() <= op.tier().rank()
                &&& lhs.shaped(op.tier())
                &&& match op.tier() {
                    Tier::Expr => rhs.shaped(Tier::Term),
                    Tier::Term => rhs.shaped(Tier::Factor),
                    Tier::Factor => rhs.operand(),
                }
            },
        }
    }

    /// The tree is a numeral or a well-shaped parenthesized expression.
    pub open spec fn operand(self) -> bool
        decreases self,
    {
        match self {
            Expr::Number(_) => true,
            Expr::Group(inner) => inner.shaped(Tier::Expr),
            Expr::Binary { .. } => false,
        }
    }

    /// The tree can stand as one link of a chain of `tier`: it has the shape
    /// of the next tighter tier or, in a factor, is an operand.
    pub open spec fn fits(self, tier: Tier) -> bool {
        match tier {
            Tier::Expr => self.shaped(Tier::Term),
            Tier::Term => self.shaped(Tier::Factor),
            Tier::Factor => self.operand(),
        }
    }
}

/// The tree of a chain that begins with `left` and goes on with the first
/// `count` links of `rest`: each operator takes all that stands before it as
/// its left operand.
pub open spec fn joined(left: Expr, rest: Seq<(Operator, Node)>, count: nat) -> Expr
    decreases rest, count,
{
    if 0 < count <= rest.len() {
        Expr::Binary {
            op: rest[count - 1].0,
            lhs: Box::new(joined(left, rest, (count - 1) as nat)),
            rhs: Box::new(tree_of(rest[count - 1].1)),
        }
    } else {
        left
    }
}

/// What `node` means.
pub open spec fn tree_of(node: Node) -> Expr
    decreases node,
{
    match node {
        Node::Number(span) => Expr::Number(span),
        Node::Group(inner) => Expr::Group(Box::new(tree_of(*inner))),
        Node::Chain { first, rest } => joined(tree_of(*first), rest@, rest@.len()),
    }
}

impl View for Node {
    type V = Expr;

    open spec fn view(&self) -> Expr {
        tree_of(*self)
    }
}

impl Node {
    /// Every chain in the node is held flat: it has at least one operator,
    /// its operators are of one tier, and each of its links fits that tier,
    /// so that no link is itself a chain that could have been part of it.
    pub open spec fn flat(self) -> bool
        decreases self,
    {
        match self {
            Node::Number(_) => true,
            Node::Group(inner) => inner.flat(),
            Node::Chain { first, rest } => {
                &&& rest.len() > 0
                &&& first.flat()
                &&& first@.fits(rest[0].0.tier())
                &&& forall|i: int|
                    0 <= i < rest.len() ==> {
                        &&& (#[trigger] rest[i]).0.tier() == rest[0].0.tier()
                        &&& rest[i].1.flat()
                        &&& rest[i].1@.fits(rest[0].0.tier())
                    }
            },
        }
    }
}

/// The tree of a chain depends on the links that are joined, not on what
/// stands behind them.
pub proof fn lemma_joined_prefix(
    left: Expr,
    short: Seq<(Operator, Node)>,
    long: Seq<(Operator, Node)>,
    count: nat,
)
    requires
        count <= short.len() <= long.len(),
        forall|i: int| 0 <= i < count ==> short[i] == long[i],
    ensures
        joined(left, short, count) == joined(left, long, count),
    decreases count,
{
    if count > 0 {
        lemma_joined_prefix(left, short, long, (count - 1) as nat);
    }
}

} // verus!
