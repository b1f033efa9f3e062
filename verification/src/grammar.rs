//! The grammar of expressions, as functions on token sequences.
//!
//! ```text
//! sum   := term (('+' | '-') term)*
//! term  := unary (('*' | '/') unary)*
//! unary := ('+' | '-')? atom
//! atom  := IDENT | NUMBER | '(' sum ')'
//! ```
//!
//! Both chains associate to the left.

use vstd::prelude::*;
use crate::ast::{BinOp, Tree, UnOp};
use crate::chars::remaining;
use crate::error::ParseErrorKind;
use crate::token::{scan, syms, Scan, Sym};

verus! {

/// What reading one phrase at some index gives: its tree and the number of
/// tokens it takes, or the reason and the index of the token at fault.
pub enum Parse {
    Done(Tree, nat),
    Fail(ParseErrorKind, nat),
}

impl Parse {
    /// The same outcome for a phrase that starts `by` tokens earlier.
    pub open spec fn longer(self, by: nat) -> Parse {
        match self {
            Parse::Done(tree, taken) => Parse::Done(tree, taken + by),
            Parse::Fail(kind, at) => Parse::Fail(kind, at),
        }
    }
}

/// The sign that a token spells, if it spells one.
pub open spec fn sign_of(sym: Sym) -> Option<UnOp> {
    match sym {
        Sym::Plus => Some(UnOp::Pos),
        Sym::Minus => Some(UnOp::Neg),
        _ => None,
    }
}

/// The additive operator that a token spells, if it spells one.
pub open spec fn additive_of(sym: Sym) -> Option<BinOp> {
    match sym {
        Sym::Plus => Some(BinOp::Add),
        Sym::Minus => Some(BinOp::Sub),
        _ => None,
    }
}

/// The multiplicative operator that a token spells, if it spells one.
pub open spec fn multiplicative_of(sym: Sym) -> Option<BinOp> {
    match sym {
        Sym::Star => Some(BinOp::Mul),
        Sym::Slash => Some(BinOp::Div),
        _ => None,
    }
}

/// The sign at index `at`, if there is one.
pub open spec fn sign_at(s: Seq<Sym>, at: int) -> Option<UnOp> {
    if 0 <= at < s.len() {
        sign_of(s[at])
    } else {
        None
    }
}

/// The additive operator at index `at`, if there is one.
pub open spec fn additive_at(s: Seq<Sym>, at: int) -> Option<BinOp> {
    if 0 <= at < s.len() {
        additive_of(s[at])
    } else {
        None
    }
}

/// The multiplicative operator at index `at`, if there is one.
pub open spec fn multiplicative_at(s: Seq<Sym>, at: int) -> Option<BinOp> {
    if 0 <= at < s.len() {
        multiplicative_of(s[at])
    } else {
        None
    }
}

/// An operand: a name, a numeral, or a sum in parentheses.
pub open spec fn atom(s: Seq<Sym>, at: int) -> Parse
    decreases remaining(s.len(), at), 0nat,
{
    if at < 0 || at >= s.len() {
        Parse::Fail(ParseErrorKind::UnexpectedEnd, s.len())
    } else {
        match s[at] {
            Sym::Ident(name) => Parse::Done(Tree::Var(name), 1),
            Sym::Number(numeral) => Parse::Done(Tree::Val(numeral), 1),
            Sym::Open => match sum(s, at + 1) {
                Parse::Done(tree, taken) => {
                    let close = at + 1 + taken;
                    if close >= s.len() {
                        Parse::Fail(ParseErrorKind::UnmatchedParen, at as nat)
                    } else if s[close] is Close {
                        Parse::Done(tree, taken + 2)
                    } else {
                        Parse::Fail(ParseErrorKind::UnexpectedToken, close as nat)
                    }
                },
                Parse::Fail(kind, fault) => Parse::Fail(kind, fault),
            },
            _ => Parse::Fail(ParseErrorKind::UnexpectedToken, at as nat),
        }
    }
}

/// An operand with at most one sign before it.
pub open spec fn unary(s: Seq<Sym>, at: int) -> Parse
    decreases remaining(s.len(), at), 1nat,
{
    match sign_at(s, at) {
        Some(op) => match atom(s, at + 1) {
            Parse::Done(tree, taken) => Parse::Done(Tree::Unary(op, Box::new(tree)), taken + 1),
            Parse::Fail(kind, fault) => Parse::Fail(kind, fault),
        },
        None => atom(s, at),
    }
}

/// The rest of a product whose factors so far make `lhs`.
pub open spec fn term_tail(s: Seq<Sym>, at: int, lhs: Tree) -> Parse
    decreases remaining(s.len(), at), 2nat,
{
    match multiplicative_at(s, at) {
        Some(op) => match unary(s, at + 1) {
            Parse::Done(rhs, taken) => term_tail(
                s,
                at + 1 + taken,
                Tree::Binary(Box::new(lhs), op, Box::new(rhs)),
            ).longer(1 + taken),
            Parse::Fail(kind, fault) => Parse::Fail(kind, fault),
        },
        None => Parse::Done(lhs, 0),
    }
}

/// A product: factors joined by `*` and `/`, grouped from the left.
pub open spec fn term(s: Seq<Sym>, at: int) -> Parse
    decreases remaining(s.len(), at), 3nat,
{
    match unary(s, at) {
        Parse::Done(lhs, taken) => term_tail(s, at + taken, lhs).longer(taken),
        Parse::Fail(kind, fault) => Parse::Fail(kind, fault),
    }
}

/// The rest of a sum whose terms so far make `lhs`.
pub open spec fn sum_tail(s: Seq<Sym>, at: int, lhs: Tree) -> Parse
    decreases remaining(s.len(), at), 4nat,
{
    match additive_at(s, at) {
        Some(op) => match term(s, at + 1) {
            Parse::Done(rhs, taken) => sum_tail(
                s,
                at + 1 + taken,
                Tree::Binary(Box::new(lhs), op, Box::new(rhs)),
            ).longer(1 + taken),
            Parse::Fail(kind, fault) => Parse::Fail(kind, fault),
        },
        None => Parse::Done(lhs, 0),
    }
}

/// A sum: products joined by `+` and `-`, grouped from the left.
pub open spec fn sum(s: Seq<Sym>, at: int) -> Parse
    decreases remaining(s.len(), at), 5nat,
{
    match term(s, at) {
        Parse::Done(lhs, taken) => sum_tail(s, at + taken, lhs).longer(taken),
        Parse::Fail(kind, fault) => Parse::Fail(kind, fault),
    }
}

/// The tree of a token sequence that is one sum and nothing more, or the
/// reason and the index of the token at fault.
pub open spec fn parse_syms(s: Seq<Sym>) -> Result<Tree, (ParseErrorKind, nat)> {
    match sum(s, 0) {
        Parse::Done(tree, taken) => {
            if taken >= s.len() {
                Ok(tree)
            } else if s[taken as int] is Close {
                Err((ParseErrorKind::UnmatchedParen, taken))
            } else {
                Err((ParseErrorKind::UnexpectedToken, taken))
            }
        },
        Parse::Fail(kind, fault) => Err((kind, fault)),
    }
}

/// The tree of a text that is an expression, or the reason and the offset,
/// in characters, of the fault: the offset of the token at fault, and the
/// length of the text where the fault is its end.
pub open spec fn parse_text(text: Seq<char>) -> Result<Tree, (ParseErrorKind, nat)> {
    match scan(text, 0) {
        Scan::Stuck(at) => Err((ParseErrorKind::UnknownCharacter, at)),
        Scan::Tokens(found) => match parse_syms(syms(found)) {
            Ok(tree) => Ok(tree),
            Err((kind, fault)) => Err(
                (
                    kind,
                    if fault < found.len() {
                        found[fault as int].offset
                    } else {
                        text.len()
                    },
                ),
            ),
        },
    }
}

} // verus!
