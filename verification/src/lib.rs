//! A front end for an extended regular-expression syntax: a parser from
//! pattern text to a structured tree, a printer from trees back to pattern
//! text, and a transformer that rewrites a tree into a structurally different
//! but matching-equivalent form.

pub mod ast;
pub mod obfuscator;
pub mod parser;
pub mod printer;
pub mod roundtrip;
pub mod semantics;
pub mod text;
