//! A lexical scanner for a small C-like scripting language.
//!
//! The scanner turns raw source text into a sequence of typed tokens,
//! collecting lexical errors (stray characters, unterminated strings)
//! instead of aborting, and always terminating with an end-of-input token.
//!
//! The behaviour of the executable scanner is specified against a
//! mathematical model: a recursive specification function over the
//! source text's character sequence (see the `model` module).

pub mod laws;
pub mod model;
pub mod scanner;
pub mod tokens;
