//! A parser-combinator engine over Unicode text whose every scalar carries
//! its byte, scalar, grapheme, line and column position.
pub mod position;
pub mod text;
pub mod parser;
pub mod laws;
pub mod tree;
pub mod formatter;
