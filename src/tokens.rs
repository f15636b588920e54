use vstd::prelude::*;

verus! {

/// A lexical token of the source language.
///
/// `IntegerLiteral` and `Comma` are reserved: they belong to the vocabulary
/// of the grammar but no scanning rule produces them yet.
#[derive(Debug, PartialEq, Eq)]
pub enum Token {
    Name(String),
    StringLiteral(String),
    HexLiteral(String),
    IntegerLiteral(String),
    LeftBracket,
    RightBracket,
    Comma,
    Whitespace,
    EndOfFile,
}

/// The mathematical value of a `Token`: payloads become character sequences.
pub enum SpecToken {
    Name(Seq<char>),
    StringLiteral(Seq<char>),
    HexLiteral(Seq<char>),
    IntegerLiteral(Seq<char>),
    LeftBracket,
    RightBracket,
    Comma,
    Whitespace,
    EndOfFile,
}

impl View for Token {
    type V = SpecToken;

    open spec fn view(&self) -> SpecToken {
        match self {
            Token::Name(s) => SpecToken::Name(s@),
            Token::StringLiteral(s) => SpecToken::StringLiteral(s@),
            Token::HexLiteral(s) => SpecToken::HexLiteral(s@),
            Token::IntegerLiteral(s) => SpecToken::IntegerLiteral(s@),
            Token::LeftBracket => SpecToken::LeftBracket,
            Token::RightBracket => SpecToken::RightBracket,
            Token::Comma => SpecToken::Comma,
            Token::Whitespace => SpecToken::Whitespace,
            Token::EndOfFile => SpecToken::EndOfFile,
        }
    }
}

/// The values of a sequence of tokens.
pub open spec fn tokens_view(ts: Seq<Token>) -> Seq<SpecToken> {
    ts.map_values(|t: Token| t@)
}

/// Why a scan failed.
#[derive(Debug, Clone, Copy, PartialEq, Eq, Structural)]
pub enum LexErrorKind {
    /// An opening `"` has no closing `"` before the end of the input.
    UnterminatedStringLiteral,
    /// The prefix `0x` is not followed by a hexadecimal digit.
    MalformedHexLiteral,
    /// No rule matches at a position before the end of the input.
    UnrecognizedInput,
}

/// A failed scan: what went wrong, the character position of the token that
/// could not be read, and the tokens read before it.
#[derive(Debug, PartialEq, Eq)]
pub struct LexError {
    pub kind: LexErrorKind,
    pub position: usize,
    pub tokens: Vec<Token>,
}

/// The mathematical value of a `LexError`.
pub struct SpecLexError {
    pub kind: LexErrorKind,
    pub position: int,
    pub tokens: Seq<SpecToken>,
}

impl View for LexError {
    type V = SpecLexError;

    open spec fn view(&self) -> SpecLexError {
        SpecLexError {
            kind: self.kind,
            position: self.position as int,
            tokens: tokens_view(self.tokens@),
        }
    }
}

} // verus!
