//! The token data model: token kinds, literal payloads, tokens, and
//! lexical errors, together with their specification-level views.

use vstd::prelude::*;
use vstd::string::StrSliceExecFns;

verus! {

/// The closed set of token categories the scanner can emit.
#[derive(Clone, Copy, Debug, PartialEq, Eq, Structural)]
pub enum TokenType {
    LEFTPAREN,
    RIGHTPAREN,
    LEFTBRACE,
    RIGHTBRACE,
    COMMA,
    DOT,
    MINUS,
    PLUS,
    SEMICOLON,
    SLASH,
    STAR,
    BANG,
    BANGEQUAL,
    EQUAL,
    EQUALEQUAL,
    GREATER,
    GREATEREQUAL,
    LESS,
    LESSEQUAL,
    // Literals.
    IDENTIFIER,
    STRING,
    NUMBER,
    // Keywords.
    AND,
    CLASS,
    ELSE,
    FALSE,
    FUN,
    FOR,
    IF,
    NIL,
    OR,
    PRINT,
    RETURN,
    SUPER,
    THIS,
    TRUE,
    VAR,
    WHILE,
    // End-of-input marker.
    EOF,
}

/// The literal payload carried by a token.
///
/// Only STRING and NUMBER tokens carry a payload. A string payload is the
/// quoted text with the delimiting quotes stripped; a number payload is the
/// exact digit span from the source (a downstream consumer parses it into
/// a machine numeral).
#[derive(Clone, Debug, PartialEq, Eq)]
pub enum LiteralType {
    STRING(String),
    NUMBER(String),
    NONE,
}

/// Specification-level view of a literal payload.
pub enum SpecLiteral {
    Text(Seq<char>),
    Num(Seq<char>),
    Absent,
}

impl View for LiteralType {
    type V = SpecLiteral;

    open spec fn view(&self) -> SpecLiteral {
        match self {
            LiteralType::STRING(s) => SpecLiteral::Text(s@),
            LiteralType::NUMBER(s) => SpecLiteral::Num(s@),
            LiteralType::NONE => SpecLiteral::Absent,
        }
    }
}

impl DeepView for LiteralType {
    type V = SpecLiteral;

    open spec fn deep_view(&self) -> SpecLiteral {
        self.view()
    }
}

/// One classified lexeme: its category, the exact source characters that
/// produced it, its literal payload, and the 1-based line of its first
/// character.
#[derive(Clone, Debug, PartialEq, Eq)]
pub struct Token {
    /// Category of the token.
    pub token_type: TokenType,
    /// The exact characters of the source that make up the token.
    pub lexeme: String,
    /// Literal payload; `NONE` for every kind but STRING and NUMBER.
    pub literal: LiteralType,
    /// 1-based source line of the token's first character.
    pub line: usize,
}

/// Specification-level view of a token.
pub struct SpecToken {
    pub kind: TokenType,
    pub lexeme: Seq<char>,
    pub literal: SpecLiteral,
    pub line: nat,
}

impl View for Token {
    type V = SpecToken;

    open spec fn view(&self) -> SpecToken {
        SpecToken {
            kind: self.token_type,
            lexeme: self.lexeme@,
            literal: self.literal@,
            line: self.line as nat,
        }
    }
}

impl DeepView for Token {
    type V = SpecToken;

    open spec fn deep_view(&self) -> SpecToken {
        self.view()
    }
}

impl Token {
    /// Builds a token from its parts.
    pub fn new(token_type: TokenType, lexeme: String, literal: LiteralType, line: usize) -> (r:
        Token)
        ensures
            r@ == (SpecToken {
                kind: token_type,
                lexeme: lexeme@,
                literal: literal@,
                line: line as nat,
            }),
    {
        Token { token_type, lexeme, literal, line }
    }

    /// The number of characters in the token's lexeme.
    pub fn lexeme_length(self) -> (r: usize)
        ensures
            r == self.lexeme@.len(),
    {
        self.lexeme.as_str().unicode_len()
    }
}

/// A lexical error: input that cannot be classified into any token form.
/// Both variants are non-fatal; the scan records them and continues.
#[derive(Clone, Copy, Debug, PartialEq, Eq)]
pub enum LexError {
    /// A character that begins no token form, with the line it occurs on.
    UnexpectedCharacter { ch: char, line: usize },
    /// A string literal still open at end of input, with the line where
    /// the string started.
    UnterminatedString { line: usize },
}

/// Specification-level view of a lexical error.
pub enum SpecError {
    UnexpectedCharacter { ch: char, line: nat },
    UnterminatedString { line: nat },
}

impl View for LexError {
    type V = SpecError;

    open spec fn view(&self) -> SpecError {
        match self {
            LexError::UnexpectedCharacter { ch, line } => SpecError::UnexpectedCharacter {
                ch: *ch,
                line: *line as nat,
            },
            LexError::UnterminatedString { line } => SpecError::UnterminatedString {
                line: *line as nat,
            },
        }
    }
}

impl DeepView for LexError {
    type V = SpecError;

    open spec fn deep_view(&self) -> SpecError {
        self.view()
    }
}

} // verus!
