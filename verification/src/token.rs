//! Token kinds, tokens, the keyword table and the binding power of a token.

use vstd::prelude::*;
use crate::ast::Precedence;
use crate::text::text_equals;

verus! {

/// The lexical category of a token.
#[allow(non_camel_case_types)]
#[derive(Debug, Eq, PartialEq, Structural, Clone, Copy, Hash, Ord, PartialOrd)]
pub enum Token {
    /// End of input.
    EOF,
    /// A byte that starts no token.
    ILLEGAL,
    /// A run of decimal digits.
    INT,
    /// A string literal between double quotes.
    STRING,
    /// A name that is not a keyword.
    IDENT,
    /// `=`
    ASSIGN,
    /// `==`
    EQUAL,
    /// `!=`
    NOT_EQ,
    /// `+`
    ADD,
    /// `-`
    SUB,
    /// `*`
    MUL,
    /// `/`
    DIV,
    /// `<`
    LT,
    /// `>`
    GT,
    /// `!`
    NOT,
    /// `,`
    COMMA,
    /// `;`
    SEMI_COLON,
    /// `:`
    COLON,
    /// `(`
    L_PAREN,
    /// `)`
    R_PAREN,
    /// `{`
    L_BRACE,
    /// `}`
    R_BRACE,
    /// `[`
    L_BRACKET,
    /// `]`
    R_BRACKET,
    /// The keyword `function`.
    FUNCTION,
    /// The keyword `let`.
    LET,
    /// The keyword `true`.
    TRUE,
    /// The keyword `false`.
    FALSE,
    /// The keyword `if`.
    IF,
    /// The keyword `else`.
    ELSE,
    /// The keyword `return`.
    RETURN,
    /// Sentinel of the precedence table.
    LOWEST,
    /// Sentinel of the precedence table.
    DEFAULT,
}

/// The kind that the keyword table gives to a run of letters: the keyword's
/// own kind for the seven reserved words, `IDENT` for anything else.
pub open spec fn keyword_kind(text: Seq<char>) -> Token {
    if text == "function"@ {
        Token::FUNCTION
    } else if text == "let"@ {
        Token::LET
    } else if text == "true"@ {
        Token::TRUE
    } else if text == "false"@ {
        Token::FALSE
    } else if text == "if"@ {
        Token::IF
    } else if text == "else"@ {
        Token::ELSE
    } else if text == "return"@ {
        Token::RETURN
    } else {
        Token::IDENT
    }
}

/// Looks a run of letters up in the keyword table.
pub fn get_keyword(ident: &str) -> (kind: Token)
    ensures
        kind == keyword_kind(ident@),
{
    if text_equals(ident, "function") {
        Token::FUNCTION
    } else if text_equals(ident, "let") {
        Token::LET
    } else if text_equals(ident, "true") {
        Token::TRUE
    } else if text_equals(ident, "false") {
        Token::FALSE
    } else if text_equals(ident, "if") {
        Token::IF
    } else if text_equals(ident, "else") {
        Token::ELSE
    } else if text_equals(ident, "return") {
        Token::RETURN
    } else {
        Token::IDENT
    }
}

/// The binding power of a token kind: the level of the ten operator kinds
/// that bind, `LOWEST` for every other kind.
pub open spec fn precedence_of(kind: Token) -> Precedence {
    match kind {
        Token::EQUAL | Token::NOT_EQ => Precedence::EQUALS,
        Token::LT | Token::GT => Precedence::LESSGREATER,
        Token::ADD | Token::SUB => Precedence::SUM,
        Token::MUL | Token::DIV => Precedence::PRODUCT,
        Token::L_BRACKET => Precedence::LBRANCKET,
        Token::L_PAREN => Precedence::CALL,
        _ => Precedence::LOWEST,
    }
}

/// A token: its kind and the source text it was scanned from.
#[derive(Debug, Eq, PartialEq, Clone, Hash, Ord, PartialOrd)]
pub struct Tokens {
    pub token_type: Token,
    pub literal: String,
}

impl Tokens {
    /// The binding power of this token. The token is left as it was.
    pub fn get_precedence(&mut self) -> (level: Precedence)
        ensures
            level == precedence_of(old(self).token_type),
            *final(self) == *old(self),
    {
        match self.token_type {
            Token::EQUAL => Precedence::EQUALS,
            Token::NOT_EQ => Precedence::EQUALS,
            Token::ADD => Precedence::SUM,
            Token::SUB => Precedence::SUM,
            Token::MUL => Precedence::PRODUCT,
            Token::DIV => Precedence::PRODUCT,
            Token::LT => Precedence::LESSGREATER,
            Token::GT => Precedence::LESSGREATER,
            Token::L_PAREN => Precedence::CALL,
            Token::L_BRACKET => Precedence::LBRANCKET,
            _ => Precedence::LOWEST,
        }
    }
}

} // verus!
