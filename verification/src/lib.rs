//! A lexical analyzer (tokenizer) for an indentation-sensitive, Python-like
//! source language.
//!
//! The tokenizer is a single forward pass over the input text.  It interleaves
//! four concerns: physical line segmentation, indentation tracking with
//! `Indent`/`Dedent` synthesis, logical-line continuation (trailing backslash
//! and open brackets), and string literals that may span physical lines.
//!
//! The entry point is [`machine::tokenize`].

pub mod chars;
pub mod machine;
pub mod scan;
pub mod strscan;
pub mod token;

pub use machine::tokenize;
pub use machine::tokenize_with_stack;
pub use token::Position;
pub use token::Token;
pub use token::TokenKind;
pub use token::TokenizeError;
