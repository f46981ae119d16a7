//! Token vocabulary of the embedded expression language.

use vstd::prelude::*;

verus! {

/// The kinds of token the embedded language distinguishes.
#[derive(Debug, PartialEq, Eq, Clone, Copy, Structural)]
pub enum TokenType {
    Illegal,
    Eof,
    Ident,
    Int,
    Assign,
    Plus,
    Minus,
    Bang,
    Asterisk,
    Slash,
    Lt,
    Gt,
    Eq,
    NotEq,
    Comma,
    Semicolon,
    LParen,
    RParen,
    LBrace,
    Rbrace,
    Function,
    Let,
    True,
    False,
    If,
    Else,
    Return,
}

/// One token: its kind and the text it covers.
pub struct Token {
    pub token_type: TokenType,
    pub literal: String,
}

/// The keyword table as a function: which token type an identifier denotes.
pub open spec fn spec_lookup_ident(s: Seq<char>) -> TokenType {
    if s == "fn"@ {
        TokenType::Function
    } else if s == "let"@ {
        TokenType::Let
    } else if s == "true"@ {
        TokenType::True
    } else if s == "false"@ {
        TokenType::False
    } else if s == "if"@ {
        TokenType::If
    } else if s == "else"@ {
        TokenType::Else
    } else if s == "return"@ {
        TokenType::Return
    } else {
        TokenType::Ident
    }
}

/// Classifies an identifier: a keyword's own type, or `Ident`.
pub fn lookup_ident(ident: &str) -> (r: TokenType)
    ensures
        r == spec_lookup_ident(ident@),
{
    if crate::strutil::str_eq(ident, "fn") {
        TokenType::Function
    } else if crate::strutil::str_eq(ident, "let") {
        TokenType::Let
    } else if crate::strutil::str_eq(ident, "true") {
        TokenType::True
    } else if crate::strutil::str_eq(ident, "false") {
        TokenType::False
    } else if crate::strutil::str_eq(ident, "if") {
        TokenType::If
    } else if crate::strutil::str_eq(ident, "else") {
        TokenType::Else
    } else if crate::strutil::str_eq(ident, "return") {
        TokenType::Return
    } else {
        TokenType::Ident
    }
}

} // verus!
