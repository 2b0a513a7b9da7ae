//! Lexical analysis for the Weclang language: a single-pass, one-character
//! lookahead tokenizer over Unicode text, with a verified model of the scan.
//!
//! `token` holds the token vocabulary, `scan` the mathematical model of the
//! scanner, `lexer` the executable tokenizer proved against that model, and
//! `laws` the general properties of the token stream.

pub mod laws;
pub mod lexer;
pub mod scan;
pub mod token;
