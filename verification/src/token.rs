//! Token records and the closed set of lexical categories.

use vstd::prelude::*;

verus! {

/// The closed enumeration of lexical categories: single-character
/// punctuation, one/two-character operators, literal-bearing categories,
/// reserved keywords, and the end-of-input marker.
#[derive(Clone, Copy, Debug, PartialEq, Eq, Structural)]
#[allow(non_camel_case_types)]
pub enum TokenType {
    LPAREN,
    RPAREN,
    LBRACE,
    RBRACE,
    COMMA,
    DOT,
    MINUS,
    PLUS,
    SEMICOLON,
    SLASH,
    STAR,
    BANG,
    BANGEQ,
    EQ,
    EQEQ,
    GT,
    LT,
    GTEQ,
    LTEQ,
    IDENT,
    STRING,
    NUM,
    AND,
    CLASS,
    ELSE,
    FALSE,
    FUN,
    FOR,
    IF,
    NIL,
    OR,
    PRINT,
    RETURN,
    SUPER,
    THIS,
    TRUE,
    VAR,
    WHILE,
    EOF,
}

/// The decoded payload carried by a token. The variant is determined by
/// the token's category: `Text` for strings and identifiers, `Number`
/// (the exact matched digit text) for numeric literals, `Absent` for
/// punctuation, operators, keywords and the end-of-input marker.
#[derive(Clone, Debug, PartialEq, Eq)]
pub enum Literal {
    Absent,
    Text(Vec<u8>),
    Number(Vec<u8>),
}

/// The mathematical value of a `Literal`.
#[verifier::ext_equal]
pub enum LiteralModel {
    Absent,
    Text(Seq<u8>),
    Number(Seq<u8>),
}

impl View for Literal {
    type V = LiteralModel;

    open spec fn view(&self) -> LiteralModel {
        match self {
            Literal::Absent => LiteralModel::Absent,
            Literal::Text(v) => LiteralModel::Text(v@),
            Literal::Number(v) => LiteralModel::Number(v@),
        }
    }
}

/// An immutable output record of the scan: its category, the exact source
/// substring it was recognized from, its decoded payload, and the 1-based
/// source line on which its first character appears.
#[derive(Clone, Debug, PartialEq, Eq)]
pub struct Token {
    pub token_type: TokenType,
    pub lexeme: Vec<u8>,
    pub literal: Literal,
    pub line: u64,
}

/// The mathematical value of a `Token`.
#[verifier::ext_equal]
pub struct TokenModel {
    pub token_type: TokenType,
    pub lexeme: Seq<u8>,
    pub literal: LiteralModel,
    pub line: int,
}

impl View for Token {
    type V = TokenModel;

    open spec fn view(&self) -> TokenModel {
        TokenModel {
            token_type: self.token_type,
            lexeme: self.lexeme@,
            literal: self.literal@,
            line: self.line as int,
        }
    }
}

impl Token {
    /// A token with no payload.
    pub fn new(t: TokenType, lexeme: Vec<u8>, line: u64) -> (r: Token)
        ensures
            r.token_type == t,
            r.lexeme == lexeme,
            r.literal == Literal::Absent,
            r.line == line,
    {
        Token { token_type: t, lexeme, literal: Literal::Absent, line }
    }

    /// A token carrying a decoded payload.
    pub fn new_literal(t: TokenType, lexeme: Vec<u8>, literal: Literal, line: u64) -> (r: Token)
        ensures
            r.token_type == t,
            r.lexeme == lexeme,
            r.literal == literal,
            r.line == line,
    {
        Token { token_type: t, lexeme, literal, line }
    }
}

} // verus!
