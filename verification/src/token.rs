//! Lexical tokens of the source language.

use vstd::prelude::*;

verus! {

/// A lexical token. Tokens are produced in source order by the tokenizer;
/// the `Eof` sentinel is always last.
#[derive(Debug, Clone, PartialEq)]
pub enum Token {
    Plus,
    Minus,
    Star,
    Slash,
    /// `=`
    Assign,
    /// `==`
    Equal,
    /// `!=`
    NotEqual,
    /// `<=`
    LessThanOrEqual,
    /// `>=`
    GreaterThanOrEqual,
    /// `(`
    LeftParen,
    /// `)`
    RightParen,
    /// `{`
    LeftBrace,
    /// `}`
    RightBrace,
    /// `<`
    LeftAngleBracket,
    /// `>`
    RightAngleBracket,
    /// `;`
    Semicolon,
    /// An integer literal with its parsed value.
    Num(i32),
    /// An identifier with its lexeme.
    Ident(String),
    Return,
    If,
    Else,
    While,
    For,
    /// End-of-input sentinel.
    Eof,
}

/// The mathematical value of a token: the same tag, with an identifier
/// abstracted to its sequence of characters.
pub enum TokenV {
    Plus,
    Minus,
    Star,
    Slash,
    Assign,
    Equal,
    NotEqual,
    LessThanOrEqual,
    GreaterThanOrEqual,
    LeftParen,
    RightParen,
    LeftBrace,
    RightBrace,
    LeftAngleBracket,
    RightAngleBracket,
    Semicolon,
    Num(i32),
    Ident(Seq<char>),
    Return,
    If,
    Else,
    While,
    For,
    Eof,
}

impl View for Token {
    type V = TokenV;

    open spec fn view(&self) -> TokenV {
        match self {
            Token::Plus => TokenV::Plus,
            Token::Minus => TokenV::Minus,
            Token::Star => TokenV::Star,
            Token::Slash => TokenV::Slash,
            Token::Assign => TokenV::Assign,
            Token::Equal => TokenV::Equal,
            Token::NotEqual => TokenV::NotEqual,
            Token::LessThanOrEqual => TokenV::LessThanOrEqual,
            Token::GreaterThanOrEqual => TokenV::GreaterThanOrEqual,
            Token::LeftParen => TokenV::LeftParen,
            Token::RightParen => TokenV::RightParen,
            Token::LeftBrace => TokenV::LeftBrace,
            Token::RightBrace => TokenV::RightBrace,
            Token::LeftAngleBracket => TokenV::LeftAngleBracket,
            Token::RightAngleBracket => TokenV::RightAngleBracket,
            Token::Semicolon => TokenV::Semicolon,
            Token::Num(n) => TokenV::Num(*n),
            Token::Ident(name) => TokenV::Ident(name@),
            Token::Return => TokenV::Return,
            Token::If => TokenV::If,
            Token::Else => TokenV::Else,
            Token::While => TokenV::While,
            Token::For => TokenV::For,
            Token::Eof => TokenV::Eof,
        }
    }
}

impl DeepView for Token {
    type V = TokenV;

    open spec fn deep_view(&self) -> TokenV {
        self.view()
    }
}

/// Decides whether two tokens carry the same value; identifiers are
/// compared by their characters.
#[verifier::rlimit(50)]
pub fn token_matches(a: &Token, b: &Token) -> (r: bool)
    ensures
        r == (a@ == b@),
{
    match (a, b) {
        (Token::Plus, Token::Plus) => true,
        (Token::Minus, Token::Minus) => true,
        (Token::Star, Token::Star) => true,
        (Token::Slash, Token::Slash) => true,
        (Token::Assign, Token::Assign) => true,
        (Token::Equal, Token::Equal) => true,
        (Token::NotEqual, Token::NotEqual) => true,
        (Token::LessThanOrEqual, Token::LessThanOrEqual) => true,
        (Token::GreaterThanOrEqual, Token::GreaterThanOrEqual) => true,
        (Token::LeftParen, Token::LeftParen) => true,
        (Token::RightParen, Token::RightParen) => true,
        (Token::LeftBrace, Token::LeftBrace) => true,
        (Token::RightBrace, Token::RightBrace) => true,
        (Token::LeftAngleBracket, Token::LeftAngleBracket) => true,
        (Token::RightAngleBracket, Token::RightAngleBracket) => true,
        (Token::Semicolon, Token::Semicolon) => true,
        (Token::Num(x), Token::Num(y)) => x == y,
        (Token::Ident(s), Token::Ident(t)) => *s == *t,
        (Token::Return, Token::Return) => true,
        (Token::If, Token::If) => true,
        (Token::Else, Token::Else) => true,
        (Token::While, Token::While) => true,
        (Token::For, Token::For) => true,
        (Token::Eof, Token::Eof) => true,
        _ => false,
    }
}

} // verus!
