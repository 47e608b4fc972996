//! The lexical front end: token vocabulary, the character source, the
//! tokenizer state machine and its mathematical model, and the laws the
//! tokenizer obeys.

pub mod laws;
pub mod model;
pub mod tokenizer;
pub mod tokens;
