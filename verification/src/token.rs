//! The tokens of the expression language and the tokenizer.

use vstd::prelude::*;
use crate::chars::{
    collect_chars, digit, ident_part, ident_start, is_digit, is_ident_part, is_ident_start,
    is_space, remaining, space,
};
use crate::error::{ParseError, ParseErrorKind};

verus! {

/// The model of a token.
pub enum Sym {
    Ident(Seq<char>),
    Number(Seq<char>),
    Plus,
    Minus,
    Star,
    Slash,
    Open,
    Close,
}

/// A token.
#[derive(Clone, Debug, PartialEq, Eq)]
pub enum Token {
    /// A name: a letter or `_`, then letters, digits and `_`.
    Ident(String),
    /// A decimal numeral: digits, optionally a point and more digits.
    Number(String),
    Plus,
    Minus,
    Star,
    Slash,
    Open,
    Close,
}

impl View for Token {
    type V = Sym;

    open spec fn view(&self) -> Sym {
        match self {
            Token::Ident(name) => Sym::Ident(name@),
            Token::Number(numeral) => Sym::Number(numeral@),
            Token::Plus => Sym::Plus,
            Token::Minus => Sym::Minus,
            Token::Star => Sym::Star,
            Token::Slash => Sym::Slash,
            Token::Open => Sym::Open,
            Token::Close => Sym::Close,
        }
    }
}

/// The model of a token in its place: the token and the offset of its first
/// character.
pub struct Mark {
    pub sym: Sym,
    pub offset: nat,
}

/// A token and the offset, in characters, of its first character.
#[derive(Clone, Debug, PartialEq, Eq)]
pub struct Lexeme {
    pub token: Token,
    pub offset: usize,
}

impl View for Lexeme {
    type V = Mark;

    open spec fn view(&self) -> Mark {
        Mark { sym: self.token@, offset: self.offset as nat }
    }
}

/// The models of a sequence of lexemes.
pub open spec fn marks(lexemes: Seq<Lexeme>) -> Seq<Mark> {
    Seq::new(lexemes.len(), |i: int| lexemes[i]@)
}

/// The tokens of a sequence of marks.
pub open spec fn syms(marks: Seq<Mark>) -> Seq<Sym> {
    Seq::new(marks.len(), |i: int| marks[i].sym)
}

/// The number of digits that stand in a row at `from`.
pub open spec fn digit_run(text: Seq<char>, from: int) -> nat
    decreases text.len() - from,
{
    if 0 <= from < text.len() && is_digit(text[from]) {
        1 + digit_run(text, from + 1)
    } else {
        0
    }
}

/// The number of identifier characters that stand in a row at `from`.
pub open spec fn ident_run(text: Seq<char>, from: int) -> nat
    decreases text.len() - from,
{
    if 0 <= from < text.len() && is_ident_part(text[from]) {
        1 + ident_run(text, from + 1)
    } else {
        0
    }
}

/// The length of the numeral that starts at `at`: the digits there and,
/// where a point and at least one digit follow them, the point and the
/// digits behind it.
pub open spec fn numeral_len(text: Seq<char>, at: int) -> nat {
    let whole = digit_run(text, at);
    let point = at + whole;
    if point + 1 < text.len() && text[point] == '.' && is_digit(text[point + 1]) {
        whole + 1 + digit_run(text, point + 1)
    } else {
        whole
    }
}

/// The length of the token that starts at `at`; 0 where none does.
pub open spec fn token_len(text: Seq<char>, at: int) -> nat {
    let c = text[at];
    if is_ident_start(c) {
        ident_run(text, at)
    } else if is_digit(c) {
        numeral_len(text, at)
    } else if c == '+' || c == '-' || c == '*' || c == '/' || c == '(' || c == ')' {
        1
    } else {
        0
    }
}

/// The token of `len` characters that starts at `at`.
pub open spec fn token_sym(text: Seq<char>, at: int, len: nat) -> Sym {
    let c = text[at];
    if is_ident_start(c) {
        Sym::Ident(text.subrange(at, at + len))
    } else if is_digit(c) {
        Sym::Number(text.subrange(at, at + len))
    } else if c == '+' {
        Sym::Plus
    } else if c == '-' {
        Sym::Minus
    } else if c == '*' {
        Sym::Star
    } else if c == '/' {
        Sym::Slash
    } else if c == '(' {
        Sym::Open
    } else {
        Sym::Close
    }
}

/// What tokenizing gives: the tokens, or the offset of a character that
/// starts none.
pub enum Scan {
    Tokens(Seq<Mark>),
    Stuck(nat),
}

impl Scan {
    /// The same outcome with `first` in front of the tokens.
    pub open spec fn after(self, first: Seq<Mark>) -> Scan {
        match self {
            Scan::Tokens(rest) => Scan::Tokens(first + rest),
            Scan::Stuck(at) => Scan::Stuck(at),
        }
    }
}

/// Tokenizes `text` from offset `from` on: white space separates tokens and
/// is dropped, and each token is the longest that starts at its offset.
pub open spec fn scan(text: Seq<char>, from: int) -> Scan
    decreases remaining(text.len(), from),
{
    if from < 0 || from >= text.len() {
        Scan::Tokens(Seq::empty())
    } else if is_space(text[from]) {
        scan(text, from + 1)
    } else {
        let len = token_len(text, from);
        if len == 0 {
            Scan::Stuck(from as nat)
        } else {
            scan(text, from + len).after(
                seq![Mark { sym: token_sym(text, from, len), offset: from as nat }],
            )
        }
    }
}

/// The offset behind the digits that stand in a row at `from`.
fn skip_digits(chars: &Vec<char>, from: usize) -> (end: usize)
    requires
        from <= chars@.len(),
    ensures
        end == from + digit_run(chars@, from as int),
        end <= chars@.len(),
{
    let mut end: usize = from;
    while end < chars.len() && digit(chars[end])
        invariant
            from <= end <= chars@.len(),
            digit_run(chars@, from as int) == (end - from) + digit_run(chars@, end as int),
        decreases chars@.len() - end,
    {
        end += 1;
    }
    end
}

/// The offset behind the identifier characters that stand in a row at `from`.
fn skip_ident(chars: &Vec<char>, from: usize) -> (end: usize)
    requires
        from <= chars@.len(),
    ensures
        end == from + ident_run(chars@, from as int),
        end <= chars@.len(),
{
    let mut end: usize = from;
    while end < chars.len() && ident_part(chars[end])
        invariant
            from <= end <= chars@.len(),
            ident_run(chars@, from as int) == (end - from) + ident_run(chars@, end as int),
        decreases chars@.len() - end,
    {
        end += 1;
    }
    end
}

/// The offset behind the numeral that starts at `at`.
fn skip_numeral(chars: &Vec<char>, at: usize) -> (end: usize)
    requires
        at < chars@.len(),
        is_digit(chars@[at as int]),
    ensures
        end == at + numeral_len(chars@, at as int),
        at < end <= chars@.len(),
{
    let point = skip_digits(chars, at);
    if point < chars.len() - 1 && chars[point] == '.' && digit(chars[point + 1]) {
        skip_digits(chars, point + 1)
    } else {
        point
    }
}

/// The token that starts at `at` and the offset behind it, if one starts
/// there.
fn token_at(text: &str, chars: &Vec<char>, at: usize) -> (out: Option<(Token, usize)>)
    requires
        chars@ == text@,
        at < chars@.len() <= usize::MAX,
    ensures
        match out {
            Some((token, end)) => {
                &&& token_len(text@, at as int) > 0
                &&& end == at + token_len(text@, at as int)
                &&& end <= text@.len()
                &&& token@ == token_sym(text@, at as int, token_len(text@, at as int))
            },
            None => token_len(text@, at as int) == 0,
        },
{
    let c = chars[at];
    if ident_start(c) {
        let end = skip_ident(chars, at);
        let name = text.substring_char(at, end).to_owned();
        Some((Token::Ident(name), end))
    } else if digit(c) {
        let end = skip_numeral(chars, at);
        let numeral = text.substring_char(at, end).to_owned();
        Some((Token::Number(numeral), end))
    } else if c == '+' {
        Some((Token::Plus, at + 1))
    } else if c == '-' {
        Some((Token::Minus, at + 1))
    } else if c == '*' {
        Some((Token::Star, at + 1))
    } else if c == '/' {
        Some((Token::Slash, at + 1))
    } else if c == '(' {
        Some((Token::Open, at + 1))
    } else if c == ')' {
        Some((Token::Close, at + 1))
    } else {
        None
    }
}

/// Tokenizes `text`: the tokens with their offsets, or the first character
/// that starts no token.
pub fn tokenize(text: &str) -> (out: Result<Vec<Lexeme>, ParseError>)
    ensures
        match scan(text@, 0) {
            Scan::Tokens(found) => out is Ok && marks(out->Ok_0@) == found,
            Scan::Stuck(at) => {
                &&& out is Err
                &&& out->Err_0.kind == ParseErrorKind::UnknownCharacter
                &&& out->Err_0.position == at
            },
        },
        out is Ok ==> out->Ok_0@.len() <= text@.len(),
{
    let chars = collect_chars(text);
    let mut lexemes: Vec<Lexeme> = Vec::new();
    let mut at: usize = 0;
    while at < chars.len()
        invariant
            chars@ == text@,
            lexemes@.len() <= at <= chars@.len(),
            scan(text@, at as int).after(marks(lexemes@)) == scan(text@, 0),
        decreases chars@.len() - at,
    {
        if space(chars[at]) {
            at += 1;
        } else {
            match token_at(text, &chars, at) {
                None => {
                    return Err(ParseError { kind: ParseErrorKind::UnknownCharacter, position: at });
                },
                Some((token, end)) => {
                    proof {
                        let ghost before = marks(lexemes@);
                        let ghost one = seq![
                            Mark {
                                sym: token_sym(text@, at as int, token_len(text@, at as int)),
                                offset: at as nat,
                            },
                        ];
                        let ghost later = lexemes@.push(Lexeme { token, offset: at });
                        assert(marks(later) =~= before + one);
                        match scan(text@, end as int) {
                            Scan::Tokens(rest) => {
                                assert(before + (one + rest) =~= (before + one) + rest);
                            },
                            Scan::Stuck(_) => {},
                        }
                    }
                    lexemes.push(Lexeme { token, offset: at });
                    at = end;
                },
            }
        }
    }
    proof {
        assert(marks(lexemes@) + Seq::<Mark>::empty() =~= marks(lexemes@));
    }
    Ok(lexemes)
}

} // verus!
