//! The abstract syntax tree of an expression and its mathematical model.

use vstd::prelude::*;

verus! {

/// A prefix sign.
#[derive(Clone, Copy, Debug, PartialEq, Eq, Structural)]
pub enum UnOp {
    Pos,
    Neg,
}

/// A binary operator.
#[derive(Clone, Copy, Debug, PartialEq, Eq, Structural)]
pub enum BinOp {
    Add,
    Sub,
    Mul,
    Div,
}

impl BinOp {
    /// `*` and `/` bind tighter than `+` and `-`.
    pub open spec fn is_multiplicative(self) -> bool {
        self == BinOp::Mul || self == BinOp::Div
    }
}

/// The model of an expression: names and literals are character sequences.
/// A literal is kept as the decimal numeral that was written.
pub enum Tree {
    Var(Seq<char>),
    Val(Seq<char>),
    Unary(UnOp, Box<Tree>),
    Binary(Box<Tree>, BinOp, Box<Tree>),
}

/// An expression. Every node owns its children.
#[derive(Debug, PartialEq, Eq)]
#[allow(inconsistent_fields)]
pub enum Expr {
    /// A free variable, by name.
    Var(String),
    /// A numeric literal, as the decimal numeral that was written.
    Val(String),
    UnOp { op: UnOp, expr: Box<Expr> },
    BinOp { lhs: Box<Expr>, op: BinOp, rhs: Box<Expr> },
}

impl Expr {
    /// The model of the expression.
    pub open spec fn tree(&self) -> Tree
        decreases self,
    {
        match self {
            Expr::Var(name) => Tree::Var(name@),
            Expr::Val(numeral) => Tree::Val(numeral@),
            Expr::UnOp { op, expr } => Tree::Unary(*op, Box::new(expr.tree())),
            Expr::BinOp { lhs, op, rhs } => Tree::Binary(
                Box::new(lhs.tree()),
                *op,
                Box::new(rhs.tree()),
            ),
        }
    }
}

impl View for Expr {
    type V = Tree;

    open spec fn view(&self) -> Tree {
        self.tree()
    }
}

impl Tree {
    /// The variable occurrences of the tree, left to right.
    pub open spec fn leaves(self) -> Seq<Seq<char>>
        decreases self,
    {
        match self {
            Tree::Var(name) => seq![name],
            Tree::Val(_) => Seq::empty(),
            Tree::Unary(_, inner) => inner.leaves(),
            Tree::Binary(lhs, _, rhs) => lhs.leaves() + rhs.leaves(),
        }
    }

    /// The number of nodes.
    pub open spec fn size(self) -> nat
        decreases self,
    {
        match self {
            Tree::Var(_) => 1,
            Tree::Val(_) => 1,
            Tree::Unary(_, inner) => 1 + inner.size(),
            Tree::Binary(lhs, _, rhs) => 1 + lhs.size() + rhs.size(),
        }
    }
}

/// A tree has at most one variable more than it has other nodes.
pub proof fn lemma_leaves_bound(tree: Tree)
    ensures
        2 * tree.leaves().len() <= tree.size() + 1,
    decreases tree,
{
    match tree {
        Tree::Var(_) => {},
        Tree::Val(_) => {},
        Tree::Unary(_, inner) => {
            lemma_leaves_bound(*inner);
        },
        Tree::Binary(lhs, _, rhs) => {
            lemma_leaves_bound(*lhs);
            lemma_leaves_bound(*rhs);
        },
    }
}

impl Expr {
    /// A copy of the expression.
    pub fn duplicate(&self) -> (out: Expr)
        ensures
            out@ == self@,
        decreases self,
    {
        match self {
            Expr::Var(name) => Expr::Var(name.clone()),
            Expr::Val(numeral) => Expr::Val(numeral.clone()),
            Expr::UnOp { op, expr } => Expr::UnOp { op: *op, expr: Box::new(expr.duplicate()) },
            Expr::BinOp { lhs, op, rhs } => Expr::BinOp {
                lhs: Box::new(lhs.duplicate()),
                op: *op,
                rhs: Box::new(rhs.duplicate()),
            },
        }
    }
}

impl Clone for Expr {
    fn clone(&self) -> (out: Expr)
        ensures
            out@ == self@,
    {
        self.duplicate()
    }
}

} // verus!
