//! A lexical scanner for a small Lox-style scripting language.
//!
//! The scanner turns a source text into a sequence of tokens, ended by one
//! `Eof` token, and a list of diagnostics. What it produces is defined by the
//! mathematical model in [`grammar`]; the executable scanner in [`scanner`] is
//! proved to compute exactly that model, and [`laws`] proves what holds of
//! every scan.

pub mod token;
pub mod grammar;
pub mod scanner;
pub mod laws;
