pub mod ast;
pub mod laws;
pub mod lexer;
pub mod loc;
pub mod parser;
pub mod trav;
pub mod typ;
pub mod typecheck;
