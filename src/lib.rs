//! A single-pass lexical scanner for a small scripting language.
//!
//! The scanner turns source text into a sequence of classified tokens, each
//! stamped with the line it came from, or reports the first lexical error.
//! Every function carries a contract over the model in [`lexical`].
pub mod error;
pub mod lexical;
pub mod scanner;
pub mod text;
pub mod token;
