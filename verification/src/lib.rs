pub mod assembler;
pub mod ast;
pub mod binary;
pub mod encoding;
pub mod format_vmw;
pub mod generator;
pub mod laws;
pub mod lexer;
pub mod linking;
pub mod parser;
pub mod search;
pub mod staging;
pub mod text;
pub mod vm;
