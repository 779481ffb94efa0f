pub mod code_gen;
pub mod error;
pub mod lexer;
pub mod parser;
pub mod text;
