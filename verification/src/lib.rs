//! The front end of a small scripting language: a tokenizer that turns source
//! text into tokens, and a parser that builds the statements of a program
//! from them.
//!
//! [`lexer`] and [`parser`] hold the two machines; [`scan`] and [`grammar`]
//! say, over the source as a sequence of characters, what they yield;
//! [`laws`] holds what is proved of every source.
pub mod ast;
pub mod chars;
pub mod grammar;
pub mod laws;
pub mod lexer;
pub mod parser;
pub mod repl;
pub mod scan;
pub mod text;
pub mod token;
