//! A lexical scanner for a small Lox-style scripting language.
//!
//! The scanner turns raw source bytes into an ordered sequence of typed
//! tokens, ending with an end-of-input marker. Its behaviour is specified
//! by a mathematical model of the scan (`model`), and the executable
//! scanner (`scanner`) is proved to produce exactly the token and
//! diagnostic sequences that the model describes.

pub mod token;
pub mod lox;
pub mod model;
pub mod scanner;
pub mod laws;
