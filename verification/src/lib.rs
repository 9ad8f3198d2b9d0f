//! A lexical analyzer for a small programming language: it turns raw source
//! text into a stream of classified tokens, pulled one at a time.
//!
//! The scanner itself lives in [`lexer`], the token taxonomy in [`token`].
//! What scanning means is written down once, as spec functions over byte
//! sequences, in [`scanning`]; the laws that hold of it — total coverage,
//! maximal munch, keyword precedence, a stable terminal state, whitespace
//! transparency — are proved in [`laws`].

pub mod laws;
pub mod lexer;
pub mod scanning;
pub mod token;
