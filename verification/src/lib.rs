//! Lexical front end for a small C-like scripting language: it turns raw
//! source text into an ordered, `EOF`-terminated sequence of typed tokens,
//! or reports the first lexical error together with its line number.

pub mod lexer;
pub mod scan_spec;
pub mod shrub_error;
pub mod token;
