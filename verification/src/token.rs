//! Tokens: the unit the scanner produces and the parser consumes.

use vstd::prelude::*;

verus! {

/// The closed set of token kinds of the language.
#[allow(non_camel_case_types)]
#[derive(Debug, Clone, Copy, PartialEq, Eq, Structural)]
pub enum TokenType {
    // Single-character tokens.
    LEFT_PAREN,
    RIGHT_PAREN,
    LEFT_BRACE,
    RIGHT_BRACE,
    COMMA,
    DOT,
    MINUS,
    PLUS,
    SEMICOLON,
    SLASH,
    STAR,
    PERCENTAGE,
    // One or two character tokens.
    BANG,
    BANG_EQUAL,
    EQUAL,
    EQUAL_EQUAL,
    GREATER,
    GREATER_EQUAL,
    LESS,
    LESS_EQUAL,
    // Literals.
    IDENTIFIER,
    STRING,
    NUMBER,
    // Keywords.
    AND,
    CLASS,
    ELSE,
    FALSE,
    FUN,
    FOR,
    IF,
    NIL,
    OR,
    PRINT,
    RETURN,
    SUPER,
    THIS,
    TRUE,
    VAR,
    WHILE,
    EOF,
}

/// A constant as it stands in the source text.
///
/// A number keeps its decimal text: the library holds numbers as bit patterns
/// of doubles and leaves the conversion from decimal text to the host.
#[derive(Debug)]
pub enum Literal {
    Nil,
    Boolean(bool),
    Number(String),
    Text(String),
}

/// The mathematical value of a [`Literal`].
pub enum LiteralView {
    Nil,
    Boolean(bool),
    Number(Seq<char>),
    Text(Seq<char>),
}

impl View for Literal {
    type V = LiteralView;

    open spec fn view(&self) -> LiteralView {
        match *self {
            Literal::Nil => LiteralView::Nil,
            Literal::Boolean(b) => LiteralView::Boolean(b),
            Literal::Number(s) => LiteralView::Number(s@),
            Literal::Text(s) => LiteralView::Text(s@),
        }
    }
}

impl Clone for Literal {
    fn clone(&self) -> (r: Self)
        ensures
            r == *self,
    {
        match self {
            Literal::Nil => Literal::Nil,
            Literal::Boolean(b) => Literal::Boolean(*b),
            Literal::Number(s) => Literal::Number(s.clone()),
            Literal::Text(s) => Literal::Text(s.clone()),
        }
    }
}

/// A token: its kind, the text it was read from, its constant (if it is a
/// literal) and the line it ends on.
#[derive(Debug)]
pub struct Token {
    pub kind: TokenType,
    pub lexeme: String,
    pub literal: Literal,
    pub line: u32,
}

/// The mathematical value of a [`Token`].
pub struct TokenView {
    pub kind: TokenType,
    pub lexeme: Seq<char>,
    pub literal: LiteralView,
    pub line: u32,
}

impl View for Token {
    type V = TokenView;

    open spec fn view(&self) -> TokenView {
        TokenView {
            kind: self.kind,
            lexeme: self.lexeme@,
            literal: self.literal@,
            line: self.line,
        }
    }
}

impl Token {
    /// A token of these parts.
    pub fn new(kind: TokenType, lexeme: String, literal: Literal, line: u32) -> (t: Self)
        ensures
            t == (Token { kind, lexeme, literal, line }),
    {
        Token { kind, lexeme, literal, line }
    }
}

impl Clone for Token {
    fn clone(&self) -> (r: Self)
        ensures
            r == *self,
    {
        Token {
            kind: self.kind,
            lexeme: self.lexeme.clone(),
            literal: self.literal.clone(),
            line: self.line,
        }
    }
}

} // verus!
