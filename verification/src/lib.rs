//! A minimal ahead-of-time compiler for a small imperative expression
//! language, emitting x86-64 assembly text: a lexical scanner, a
//! recursive-descent expression parser, and a tree-walking code generator.

pub mod codegen;
pub mod lexer;
pub mod parser;
pub mod tokens;
