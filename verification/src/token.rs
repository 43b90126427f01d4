//! Tokens: the words of the language, as the tokenizer hands them to the parser.

use vstd::prelude::*;

verus! {

/// The kind of a token.
#[derive(Clone, Copy, Debug, PartialEq, Eq, Structural)]
pub enum TokenType {
    // Brackets and punctuation.
    LeftParen,
    RightParen,
    LeftCurly,
    RightCurly,
    LeftSquare,
    RightSquare,
    Comma,
    Colon,
    Semicolon,
    // Operators.
    Plus,
    Minus,
    Star,
    Slash,
    Percent,
    Bang,
    BangEqual,
    Equal,
    EqualEqual,
    Greater,
    GreaterEqual,
    Less,
    LessEqual,
    // Words that carry a text of their own.
    Identifier,
    String_,
    Number,
    // Keywords.
    And,
    Break,
    Else,
    False,
    For,
    Func,
    If,
    Null,
    Or,
    Print,
    Return,
    True,
    Var,
    While,
    // The end of the source text.
    Eof,
}

/// The constant that a token denotes.
///
/// A number is kept as the decimal numeral that the source text holds: one or more
/// digits, then optionally a point and one or more digits. Its value as a
/// double-precision number is taken where the number is used.
#[derive(Debug, PartialEq)]
pub enum Literal {
    Number(String),
    Bool(bool),
    String_(String),
    Null,
}

/// What a [`Literal`] is in contracts: its texts as sequences of characters.
pub enum LiteralView {
    Number(Seq<char>),
    Bool(bool),
    String_(Seq<char>),
    Null,
}

impl View for Literal {
    type V = LiteralView;

    open spec fn view(&self) -> LiteralView {
        match self {
            Literal::Number(text) => LiteralView::Number(text@),
            Literal::Bool(b) => LiteralView::Bool(*b),
            Literal::String_(text) => LiteralView::String_(text@),
            Literal::Null => LiteralView::Null,
        }
    }
}

impl Clone for Literal {
    fn clone(&self) -> (copy: Self)
        ensures
            copy@ == self@,
    {
        match self {
            Literal::Number(text) => Literal::Number(text.clone()),
            Literal::Bool(b) => Literal::Bool(*b),
            Literal::String_(text) => Literal::String_(text.clone()),
            Literal::Null => Literal::Null,
        }
    }
}

/// Whether two constants are the same.
pub fn same_literal(a: &Literal, b: &Literal) -> (same: bool)
    ensures
        same == (a@ == b@),
{
    match (a, b) {
        (Literal::Number(x), Literal::Number(y)) => *x == *y,
        (Literal::Bool(x), Literal::Bool(y)) => *x == *y,
        (Literal::String_(x), Literal::String_(y)) => *x == *y,
        (Literal::Null, Literal::Null) => true,
        _ => false,
    }
}

/// One token: its kind, the piece of source text it was read from, the constant it
/// denotes (`Null` where it denotes none) and the line it stands on.
#[derive(Debug, PartialEq)]
pub struct Token {
    pub type_: TokenType,
    pub lexeme: String,
    pub literal: Literal,
    pub line: usize,
}

/// What a [`Token`] is in contracts.
pub struct TokenView {
    pub type_: TokenType,
    pub lexeme: Seq<char>,
    pub literal: LiteralView,
    pub line: usize,
}

impl View for Token {
    type V = TokenView;

    open spec fn view(&self) -> TokenView {
        TokenView {
            type_: self.type_,
            lexeme: self.lexeme@,
            literal: self.literal@,
            line: self.line,
        }
    }
}

impl Clone for Token {
    fn clone(&self) -> (copy: Self)
        ensures
            copy@ == self@,
    {
        Token {
            type_: self.type_,
            lexeme: self.lexeme.clone(),
            literal: self.literal.clone(),
            line: self.line,
        }
    }
}

/// Whether two tokens are the same: in kind, text, constant and line.
pub fn same_token(a: &Token, b: &Token) -> (same: bool)
    ensures
        same == (a@ == b@),
{
    a.type_ == b.type_ && a.lexeme == b.lexeme && same_literal(&a.literal, &b.literal) && a.line
        == b.line
}

/// The views of a sequence of tokens, one by one.
pub open spec fn token_views(tokens: Seq<Token>) -> Seq<TokenView> {
    Seq::new(tokens.len(), |i: int| tokens[i]@)
}

} // verus!
