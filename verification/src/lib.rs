//! Lexical front end of a small SQL dialect, with a verified tokenizer,
//! together with the plain data types of the surrounding database engine
//! (configuration and fixed-size storage pages).

pub mod config;
pub mod storage;
pub mod syntax;
