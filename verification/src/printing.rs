//! The usual way to write a tree down, and the proof that the grammar reads
//! it back: a product binds tighter than a sum, chains group from the left,
//! and parentheses stand only where a tree would be read otherwise.

use vstd::prelude::*;
use crate::ast::{BinOp, Tree, UnOp};
use crate::grammar::{
    additive_at, atom, multiplicative_at, parse_syms, sum, sum_tail, term, term_tail,
    unary, Parse,
};
use crate::token::Sym;

verus! {

/// How tightly a tree holds together: a sum 0, a product 1, a signed operand
/// 2, a name or a numeral 3.
pub open spec fn level(tree: Tree) -> nat {
    match tree {
        Tree::Var(_) => 3,
        Tree::Val(_) => 3,
        Tree::Unary(_, _) => 2,
        Tree::Binary(_, op, _) => if op.is_multiplicative() {
            1
        } else {
            0
        },
    }
}

/// The token that spells a sign.
pub open spec fn sign_sym(op: UnOp) -> Sym {
    match op {
        UnOp::Pos => Sym::Plus,
        UnOp::Neg => Sym::Minus,
    }
}

/// The token that spells an operator.
pub open spec fn operator_sym(op: BinOp) -> Sym {
    match op {
        BinOp::Add => Sym::Plus,
        BinOp::Sub => Sym::Minus,
        BinOp::Mul => Sym::Star,
        BinOp::Div => Sym::Slash,
    }
}

/// The tokens of a tree, without parentheses around the whole. The left
/// operand of an operator is written as tightly as the operator binds, the
/// right operand one level tighter, and the operand of a sign as a name, a
/// numeral or in parentheses.
pub open spec fn bare(tree: Tree) -> Seq<Sym>
    decreases tree, 0nat,
{
    match tree {
        Tree::Var(name) => seq![Sym::Ident(name)],
        Tree::Val(numeral) => seq![Sym::Number(numeral)],
        Tree::Unary(op, inner) => seq![sign_sym(op)] + spelled(*inner, 3),
        Tree::Binary(lhs, op, rhs) => spelled(*lhs, level(tree)) + seq![operator_sym(op)]
            + spelled(*rhs, level(tree) + 1),
    }
}

/// The tokens of a tree where a phrase of level `floor` or tighter is
/// wanted: in parentheses if the tree holds together less tightly.
pub open spec fn spelled(tree: Tree, floor: nat) -> Seq<Sym>
    decreases tree, 1nat,
{
    if level(tree) >= floor {
        bare(tree)
    } else {
        seq![Sym::Open] + bare(tree) + seq![Sym::Close]
    }
}

/// Whether `s` has the tokens `word` from index `at` on.
pub open spec fn holds(s: Seq<Sym>, at: int, word: Seq<Sym>) -> bool {
    &&& 0 <= at
    &&& at + word.len() <= s.len()
    &&& forall|i: int| 0 <= i < word.len() ==> s[at + i] == #[trigger] word[i]
}

proof fn lemma_holds_split(s: Seq<Sym>, at: int, first: Seq<Sym>, second: Seq<Sym>)
    requires
        holds(s, at, first + second),
    ensures
        holds(s, at, first),
        holds(s, at + first.len(), second),
{
    let word = first + second;
    assert forall|i: int| 0 <= i < first.len() implies s[at + i] == #[trigger] first[i] by {
        assert(word[i] == first[i]);
    }
    assert forall|i: int| 0 <= i < second.len() implies s[at + first.len() + i]
        == #[trigger] second[i] by {
        assert(word[first.len() + i] == second[i]);
    }
}

proof fn lemma_holds_one(s: Seq<Sym>, at: int, sym: Sym)
    requires
        holds(s, at, seq![sym]),
    ensures
        0 <= at < s.len(),
        s[at] == sym,
{
    assert(seq![sym][0] == sym);
}

/// The order in which the four lemmas below call one another on one tree.
spec fn rank(tree: Tree, floor: nat) -> nat {
    if level(tree) >= floor {
        (level(tree) - floor) as nat
    } else {
        (level(tree) + 4 - floor) as nat
    }
}

proof fn lemma_reads_atom(tree: Tree, s: Seq<Sym>, at: int)
    requires
        holds(s, at, spelled(tree, 3)),
    ensures
        atom(s, at) == Parse::Done(tree, spelled(tree, 3).len()),
    decreases tree, rank(tree, 3),
{
    match tree {
        Tree::Var(name) => {
            lemma_holds_one(s, at, Sym::Ident(name));
        },
        Tree::Val(numeral) => {
            lemma_holds_one(s, at, Sym::Number(numeral));
        },
        _ => {
            let inner = bare(tree);
            lemma_holds_split(s, at, seq![Sym::Open] + inner, seq![Sym::Close]);
            lemma_holds_split(s, at, seq![Sym::Open], inner);
            lemma_holds_one(s, at, Sym::Open);
            lemma_holds_one(s, at + 1 + inner.len(), Sym::Close);
            assert(spelled(tree, 0) == inner);
            lemma_reads_sum(tree, s, at + 1);
        },
    }
}

proof fn lemma_reads_unary(tree: Tree, s: Seq<Sym>, at: int)
    requires
        holds(s, at, spelled(tree, 2)),
    ensures
        unary(s, at) == Parse::Done(tree, spelled(tree, 2).len()),
    decreases tree, rank(tree, 2),
{
    match tree {
        Tree::Unary(op, inner) => {
            lemma_holds_split(s, at, seq![sign_sym(op)], spelled(*inner, 3));
            lemma_holds_one(s, at, sign_sym(op));
            lemma_reads_atom(*inner, s, at + 1);
        },
        Tree::Var(name) => {
            lemma_holds_one(s, at, Sym::Ident(name));
            lemma_reads_atom(tree, s, at);
        },
        Tree::Val(numeral) => {
            lemma_holds_one(s, at, Sym::Number(numeral));
            lemma_reads_atom(tree, s, at);
        },
        Tree::Binary(_, _, _) => {
            lemma_holds_split(s, at, seq![Sym::Open] + bare(tree), seq![Sym::Close]);
            lemma_holds_split(s, at, seq![Sym::Open], bare(tree));
            lemma_holds_one(s, at, Sym::Open);
            lemma_reads_atom(tree, s, at);
        },
    }
}

proof fn lemma_reads_term(tree: Tree, s: Seq<Sym>, at: int)
    requires
        holds(s, at, spelled(tree, 1)),
    ensures
        term(s, at) == term_tail(s, at + spelled(tree, 1).len(), tree).longer(
            spelled(tree, 1).len(),
        ),
    decreases tree, rank(tree, 1),
{
    if level(tree) == 1 {
        match tree {
            Tree::Binary(lhs, op, rhs) => {
                let left = spelled(*lhs, 1);
                let right = spelled(*rhs, 2);
                lemma_holds_split(s, at, left + seq![operator_sym(op)], right);
                lemma_holds_split(s, at, left, seq![operator_sym(op)]);
                lemma_holds_one(s, at + left.len(), operator_sym(op));
                lemma_reads_term(*lhs, s, at);
                lemma_reads_unary(*rhs, s, at + left.len() + 1);
                assert(multiplicative_at(s, at + left.len()) == Some(op));
            },
            _ => {},
        }
    } else {
        assert(spelled(tree, 1) == spelled(tree, 2));
        lemma_reads_unary(tree, s, at);
    }
}

proof fn lemma_reads_sum(tree: Tree, s: Seq<Sym>, at: int)
    requires
        holds(s, at, spelled(tree, 0)),
        multiplicative_at(s, at + spelled(tree, 0).len()) is None,
    ensures
        sum(s, at) == sum_tail(s, at + spelled(tree, 0).len(), tree).longer(
            spelled(tree, 0).len(),
        ),
    decreases tree, rank(tree, 0),
{
    if level(tree) == 0 {
        match tree {
            Tree::Binary(lhs, op, rhs) => {
                let left = spelled(*lhs, 0);
                let right = spelled(*rhs, 1);
                lemma_holds_split(s, at, left + seq![operator_sym(op)], right);
                lemma_holds_split(s, at, left, seq![operator_sym(op)]);
                lemma_holds_one(s, at + left.len(), operator_sym(op));
                assert(multiplicative_at(s, at + left.len()) is None);
                assert(additive_at(s, at + left.len()) == Some(op));
                lemma_reads_sum(*lhs, s, at);
                lemma_reads_term(*rhs, s, at + left.len() + 1);
            },
            _ => {},
        }
    } else {
        assert(spelled(tree, 0) == spelled(tree, 1));
        lemma_reads_term(tree, s, at);
    }
}

/// Reading what was written gives the tree back: every tree is the tree of
/// its own tokens.
pub proof fn lemma_parse_of_spelled(tree: Tree)
    ensures
        parse_syms(spelled(tree, 0)) == Ok::<Tree, (crate::error::ParseErrorKind, nat)>(tree),
{
    let s = spelled(tree, 0);
    lemma_reads_sum(tree, s, 0);
}

} // verus!
