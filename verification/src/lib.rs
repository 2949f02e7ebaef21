//! Compiler for the Kururi language: a small statically typed imperative
//! source language that is lowered to dynamically typed Python text.
//!
//! The pipeline has four stages, each a total function from its input to
//! either its artifact or a single diagnostic: lexing, parsing, semantic
//! analysis, and code emission.

pub mod ast;
pub mod error;
pub mod lexer;
pub mod codegen;
pub mod compiler;
pub mod parser;
pub mod parser_new;
pub mod semantic;
pub mod text;
pub mod types;
pub mod token;
