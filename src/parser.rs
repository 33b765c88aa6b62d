pub mod ast;
pub mod lexer;
pub mod parser;
pub mod scanner;
pub mod token;
