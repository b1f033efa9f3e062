//! The parser: from text to an expression, in one pass over the tokens.

use vstd::prelude::*;
use crate::ast::{BinOp, Expr, UnOp};
use crate::error::{ParseError, ParseErrorKind};
use crate::grammar::{
    additive_at, atom, multiplicative_at, parse_syms, parse_text, sign_at, sum, sum_tail, term,
    term_tail, unary, Parse,
};
use crate::token::{marks, syms, tokenize, Lexeme, Sym, Token};

verus! {

/// The tokens that the parser reads.
pub open spec fn input(lexemes: &Vec<Lexeme>) -> Seq<Sym> {
    syms(marks(lexemes@))
}

/// Whether `out`, read at index `at`, is what the grammar gives.
pub open spec fn fits(
    out: Result<(Expr, usize), (ParseErrorKind, usize)>,
    wanted: Parse,
    at: usize,
) -> bool {
    match wanted {
        Parse::Done(tree, taken) => {
            &&& out is Ok
            &&& out->Ok_0.0@ == tree
            &&& out->Ok_0.1 == at + taken
        },
        Parse::Fail(kind, fault) => {
            &&& out is Err
            &&& out->Err_0.0 == kind
            &&& out->Err_0.1 == fault
        },
    }
}

fn sign(lexemes: &Vec<Lexeme>, at: usize) -> (out: Option<UnOp>)
    ensures
        out == sign_at(input(lexemes), at as int),
        out is Some ==> at < lexemes@.len() <= usize::MAX,
{
    if at < lexemes.len() {
        match lexemes[at].token {
            Token::Plus => Some(UnOp::Pos),
            Token::Minus => Some(UnOp::Neg),
            _ => None,
        }
    } else {
        None
    }
}

fn additive(lexemes: &Vec<Lexeme>, at: usize) -> (out: Option<BinOp>)
    ensures
        out == additive_at(input(lexemes), at as int),
        out is Some ==> at < lexemes@.len() <= usize::MAX,
{
    if at < lexemes.len() {
        match lexemes[at].token {
            Token::Plus => Some(BinOp::Add),
            Token::Minus => Some(BinOp::Sub),
            _ => None,
        }
    } else {
        None
    }
}

fn multiplicative(lexemes: &Vec<Lexeme>, at: usize) -> (out: Option<BinOp>)
    ensures
        out == multiplicative_at(input(lexemes), at as int),
        out is Some ==> at < lexemes@.len() <= usize::MAX,
{
    if at < lexemes.len() {
        match lexemes[at].token {
            Token::Star => Some(BinOp::Mul),
            Token::Slash => Some(BinOp::Div),
            _ => None,
        }
    } else {
        None
    }
}

fn parse_atom(lexemes: &Vec<Lexeme>, at: usize) -> (out: Result<
    (Expr, usize),
    (ParseErrorKind, usize),
>)
    requires
        at <= lexemes@.len(),
    ensures
        fits(out, atom(input(lexemes), at as int), at),
        out is Ok ==> at + out->Ok_0.0@.size() <= out->Ok_0.1 <= lexemes@.len(),
    decreases lexemes@.len() - at, 0nat,
{
    let total = lexemes.len();
    if at >= total {
        return Err((ParseErrorKind::UnexpectedEnd, total));
    }
    match &lexemes[at].token {
        Token::Ident(name) => Ok((Expr::Var(name.clone()), at + 1)),
        Token::Number(numeral) => Ok((Expr::Val(numeral.clone()), at + 1)),
        Token::Open => match parse_sum(lexemes, at + 1) {
            Err(fault) => Err(fault),
            Ok((inner, close)) => {
                if close >= total {
                    Err((ParseErrorKind::UnmatchedParen, at))
                } else {
                    match lexemes[close].token {
                        Token::Close => Ok((inner, close + 1)),
                        _ => Err((ParseErrorKind::UnexpectedToken, close)),
                    }
                }
            },
        },
        _ => Err((ParseErrorKind::UnexpectedToken, at)),
    }
}

fn parse_unary(lexemes: &Vec<Lexeme>, at: usize) -> (out: Result<
    (Expr, usize),
    (ParseErrorKind, usize),
>)
    requires
        at <= lexemes@.len(),
    ensures
        fits(out, unary(input(lexemes), at as int), at),
        out is Ok ==> at + out->Ok_0.0@.size() <= out->Ok_0.1 <= lexemes@.len(),
    decreases lexemes@.len() - at, 1nat,
{
    match sign(lexemes, at) {
        Some(op) => match parse_atom(lexemes, at + 1) {
            Ok((inner, next)) => Ok((Expr::UnOp { op, expr: Box::new(inner) }, next)),
            Err(fault) => Err(fault),
        },
        None => parse_atom(lexemes, at),
    }
}

fn parse_term(lexemes: &Vec<Lexeme>, at: usize) -> (out: Result<
    (Expr, usize),
    (ParseErrorKind, usize),
>)
    requires
        at <= lexemes@.len(),
    ensures
        fits(out, term(input(lexemes), at as int), at),
        out is Ok ==> at + out->Ok_0.0@.size() <= out->Ok_0.1 <= lexemes@.len(),
    decreases lexemes@.len() - at, 3nat,
{
    let (first, start) = match parse_unary(lexemes, at) {
        Ok(read) => read,
        Err(fault) => {
            return Err(fault);
        },
    };
    let mut lhs = first;
    let mut pos = start;
    loop
        invariant
            at + lhs@.size() <= pos <= lexemes@.len(),
            term_tail(input(lexemes), pos as int, lhs@).longer((pos - at) as nat) == term(
                input(lexemes),
                at as int,
            ),
        decreases lexemes@.len() - pos,
    {
        let op = match multiplicative(lexemes, pos) {
            Some(op) => op,
            None => {
                return Ok((lhs, pos));
            },
        };
        let (rhs, next) = match parse_unary(lexemes, pos + 1) {
            Ok(read) => read,
            Err(fault) => {
                return Err(fault);
            },
        };
        lhs = Expr::BinOp { lhs: Box::new(lhs), op, rhs: Box::new(rhs) };
        pos = next;
    }
}

fn parse_sum(lexemes: &Vec<Lexeme>, at: usize) -> (out: Result<
    (Expr, usize),
    (ParseErrorKind, usize),
>)
    requires
        at <= lexemes@.len(),
    ensures
        fits(out, sum(input(lexemes), at as int), at),
        out is Ok ==> at + out->Ok_0.0@.size() <= out->Ok_0.1 <= lexemes@.len(),
    decreases lexemes@.len() - at, 5nat,
{
    let (first, start) = match parse_term(lexemes, at) {
        Ok(read) => read,
        Err(fault) => {
            return Err(fault);
        },
    };
    let mut lhs = first;
    let mut pos = start;
    loop
        invariant
            at + lhs@.size() <= pos <= lexemes@.len(),
            sum_tail(input(lexemes), pos as int, lhs@).longer((pos - at) as nat) == sum(
                input(lexemes),
                at as int,
            ),
        decreases lexemes@.len() - pos,
    {
        let op = match additive(lexemes, pos) {
            Some(op) => op,
            None => {
                return Ok((lhs, pos));
            },
        };
        let (rhs, next) = match parse_term(lexemes, pos + 1) {
            Ok(read) => read,
            Err(fault) => {
                return Err(fault);
            },
        };
        lhs = Expr::BinOp { lhs: Box::new(lhs), op, rhs: Box::new(rhs) };
        pos = next;
    }
}

/// Parses a token sequence that is one expression and nothing more. A fault
/// comes with the index of the token at fault.
pub fn parse_tokens(lexemes: &Vec<Lexeme>) -> (out: Result<Expr, (ParseErrorKind, usize)>)
    ensures
        match parse_syms(input(lexemes)) {
            Ok(tree) => out is Ok && out->Ok_0@ == tree,
            Err((kind, fault)) => out is Err && out->Err_0.0 == kind && out->Err_0.1 == fault,
        },
        out is Ok ==> out->Ok_0@.size() <= lexemes@.len(),
{
    match parse_sum(lexemes, 0) {
        Err(fault) => Err(fault),
        Ok((tree, next)) => {
            if next >= lexemes.len() {
                Ok(tree)
            } else {
                match lexemes[next].token {
                    Token::Close => Err((ParseErrorKind::UnmatchedParen, next)),
                    _ => Err((ParseErrorKind::UnexpectedToken, next)),
                }
            }
        },
    }
}

/// Parses `text`. The result is the tree that the grammar gives to the
/// text, or the reason for which it gives none, with the offset of the
/// fault in characters. A tree has no more nodes than the text has
/// characters, and no more than can be counted.
pub fn parse(text: &str) -> (out: Result<Expr, ParseError>)
    ensures
        match parse_text(text@) {
            Ok(tree) => out is Ok && out->Ok_0@ == tree,
            Err((kind, position)) => {
                &&& out is Err
                &&& out->Err_0.kind == kind
                &&& out->Err_0.position == position
            },
        },
        out is Ok ==> out->Ok_0@.size() <= text@.len() && out->Ok_0@.size() <= usize::MAX,
{
    let lexemes = match tokenize(text) {
        Ok(lexemes) => lexemes,
        Err(fault) => {
            return Err(fault);
        },
    };
    proof {
        assert(input(&lexemes) =~= syms(marks(lexemes@)));
    }
    match parse_tokens(&lexemes) {
        Ok(tree) => Ok(tree),
        Err((kind, fault)) => {
            proof {
                if fault < lexemes@.len() {
                    assert(marks(lexemes@)[fault as int] == lexemes@[fault as int]@);
                }
            }
            let position = if fault < lexemes.len() {
                lexemes[fault].offset
            } else {
                text.unicode_len()
            };
            Err(ParseError { kind, position })
        },
    }
}

} // verus!
