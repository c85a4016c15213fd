//! The token data model: executable token records and their mathematical
//! images, used by every contract of the library.

use vstd::prelude::*;

verus! {

/// The kind of a single token. The set is closed; only the numeric and
/// word variants carry a payload.
#[derive(Debug, PartialEq)]
pub enum TokenType {
    Plus,
    Colon,
    CurlyClose,
    CurlyOpen,
    Equal,
    Number(u64),
    Word(String),
    Comma,
    Dot,
    ParClose,
    ParOpen,
}

/// One token: its kind together with the zero-based line its lexeme
/// starts on (lines are counted by `\n` characters seen so far).
#[derive(Debug, PartialEq)]
pub struct Token {
    pub line_number: usize,
    pub token_type: TokenType,
}

/// Reported when a numeric literal is malformed: its digit run is empty,
/// contains a character that is not a digit of the detected radix, or
/// names a value that does not fit in a `u64`. `start` and `end` are the
/// zero-based character offsets of the offending lexeme, `end` exclusive.
#[derive(Debug, PartialEq)]
pub struct LexError {
    pub line_number: usize,
    pub start: usize,
    pub end: usize,
}

/// Mathematical image of a token kind: the word payload is a plain
/// character sequence.
#[verifier::ext_equal]
pub enum SpecTokenType {
    Plus,
    Colon,
    CurlyClose,
    CurlyOpen,
    Equal,
    Number(u64),
    Word(Seq<char>),
    Comma,
    Dot,
    ParClose,
    ParOpen,
}

/// Mathematical image of a token.
#[verifier::ext_equal]
pub struct SpecToken {
    pub line_number: int,
    pub token_type: SpecTokenType,
}

/// Mathematical image of a tokenization error.
#[verifier::ext_equal]
pub struct SpecLexError {
    pub line_number: int,
    pub start: int,
    pub end: int,
}

impl View for TokenType {
    type V = SpecTokenType;

    open spec fn view(&self) -> SpecTokenType {
        match self {
            TokenType::Plus => SpecTokenType::Plus,
            TokenType::Colon => SpecTokenType::Colon,
            TokenType::CurlyClose => SpecTokenType::CurlyClose,
            TokenType::CurlyOpen => SpecTokenType::CurlyOpen,
            TokenType::Equal => SpecTokenType::Equal,
            TokenType::Number(n) => SpecTokenType::Number(*n),
            TokenType::Word(w) => SpecTokenType::Word(w@),
            TokenType::Comma => SpecTokenType::Comma,
            TokenType::Dot => SpecTokenType::Dot,
            TokenType::ParClose => SpecTokenType::ParClose,
            TokenType::ParOpen => SpecTokenType::ParOpen,
        }
    }
}

impl View for Token {
    type V = SpecToken;

    open spec fn view(&self) -> SpecToken {
        SpecToken { line_number: self.line_number as int, token_type: self.token_type@ }
    }
}

impl View for LexError {
    type V = SpecLexError;

    open spec fn view(&self) -> SpecLexError {
        SpecLexError {
            line_number: self.line_number as int,
            start: self.start as int,
            end: self.end as int,
        }
    }
}

} // verus!
