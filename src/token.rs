//! Tokens: the lexical categories and the text each token was read from.
use vstd::prelude::*;

verus! {

/// Lexical categories of the language.
#[derive(Debug, Clone, Copy, PartialEq, Eq, Hash, Structural)]
pub enum TokenType {
    LET,
    FN,
    ILLEGAL,
    EOF,
    IDENT,
    INT,
    STRING,
    ASSIGN,
    PLUS,
    MINUS,
    ASTERISK,
    SLASH,
    COMMA,
    COLON,
    SEMICOLON,
    LPAREN,
    RPAREN,
    LBRACE,
    RBRACE,
    LBRACKET,
    RBRACKET,
    LT,
    GT,
    EQ,
    NOTEQ,
    IF,
    ELSE,
    RETURN,
    TRUE,
    FALSE,
    BANG,
}

/// A token: its category and the text it was read from.
#[derive(Debug, Clone, PartialEq, Eq)]
pub struct Token {
    pub token_type: TokenType,
    pub literal: String,
}

/// A token as a value: its category and its text.
pub type Tok = (TokenType, Seq<char>);

impl View for Token {
    type V = Tok;

    open spec fn view(&self) -> Tok {
        (self.token_type, self.literal@)
    }
}

/// The category of a word: a keyword of the fixed table, or an identifier.
pub open spec fn keyword_kind(w: Seq<char>) -> TokenType {
    if w == seq!['f', 'n'] {
        TokenType::FN
    } else if w == seq!['l', 'e', 't'] {
        TokenType::LET
    } else if w == seq!['i', 'f'] {
        TokenType::IF
    } else if w == seq!['e', 'l', 's', 'e'] {
        TokenType::ELSE
    } else if w == seq!['r', 'e', 't', 'u', 'r', 'n'] {
        TokenType::RETURN
    } else if w == seq!['t', 'r', 'u', 'e'] {
        TokenType::TRUE
    } else if w == seq!['f', 'a', 'l', 's', 'e'] {
        TokenType::FALSE
    } else {
        TokenType::IDENT
    }
}

} // verus!
