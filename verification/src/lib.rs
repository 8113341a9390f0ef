//! A lexical scanner for a small Lox-style scripting language.
//!
//! [`scanner::scan`] reads a source text in one pass and gives its tokens,
//! the end-of-input token last, together with the lexical errors met on the
//! way. What it gives is stated over [`grammar`], a model of the lexical
//! grammar on sequences of characters, and [`laws`] holds what follows from
//! that model for every text.

pub mod text;
pub mod token;
pub mod error;
pub mod grammar;
pub mod lemmas;
pub mod source;
pub mod scanner;
pub mod laws;
