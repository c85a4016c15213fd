//! A tokenizer for a small linker-script-like configuration language:
//! memory region declarations, symbol assignments, and numeric literals
//! with optional unit words.
//!
//! The library turns raw script text into an ordered sequence of [`Token`]
//! values, each annotated with the zero-based line it starts on. Whitespace
//! and comments produce no tokens but still advance the line counter. A
//! malformed numeric literal fails the whole call with a [`LexError`]
//! locating the offending lexeme.

pub mod laws;
pub mod lexer;
pub mod model;
pub mod token;

pub use lexer::advance_while;
pub use lexer::lexer;
pub use model::lex_spec;
pub use model::CharClass;

pub use token::LexError;
pub use token::SpecLexError;
pub use token::SpecToken;
pub use token::SpecTokenType;
pub use token::Token;
pub use token::TokenType;
