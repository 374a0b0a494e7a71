pub mod ast;
pub mod grammar;
pub mod lexer;
pub mod number;
pub mod parser;
pub mod scope;
pub mod symbols;
pub mod syntax_laws;
pub mod token;
