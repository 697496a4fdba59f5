//! A lexical scanner for a small dynamic scripting language.
//!
//! The scanner turns source text into classified tokens and keeps a list of
//! diagnostics for the malformed lexemes it had to skip. Every function is
//! specified against a mathematical model of the lexical grammar, which
//! lives in [`scanner::grammar`] and [`scanner::stream`]; [`scanner::laws`]
//! holds what is proved of every source.

pub mod repl;
pub mod report;
pub mod scanner;
