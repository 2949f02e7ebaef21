//! The plain data shapes exchanged with the transport layer: one
//! request/response pair per stage, and the bundle of artifacts a whole
//! compile produces.

use vstd::prelude::*;

use crate::ast::AstNode;
use crate::token::Token;

verus! {

/// A lexing request: the source buffer.
#[derive(Debug, Clone)]
pub struct LexRequest {
    pub code: String,
}

/// A lexing response: the token stream.
#[derive(Debug)]
pub struct LexResponse {
    pub tokens: Vec<Token>,
}

/// A parsing request: the token stream.
#[derive(Debug)]
pub struct ParseRequest {
    pub tokens: Vec<Token>,
}

/// A parsing response: the syntax tree.
#[derive(Debug)]
pub struct ParseResponse {
    pub ast: AstNode,
}

/// A semantic-analysis request: the syntax tree.
#[derive(Debug)]
pub struct SemanticRequest {
    pub ast: AstNode,
}

/// A semantic-analysis response: the checked tree.
#[derive(Debug)]
pub struct SemanticResponse {
    pub checked_ast: AstNode,
}

/// A code-generation request: the checked tree.
#[derive(Debug)]
pub struct CodegenRequest {
    pub checked_ast: AstNode,
}

/// A code-generation response: the emitted text.
#[derive(Debug, Clone)]
pub struct CodegenResponse {
    pub code: String,
}

/// A whole-compile request: the source buffer.
#[derive(Debug, Clone)]
pub struct CompileRequest {
    pub code: String,
}

/// A whole-compile response: the emitted text and the intermediate
/// artifacts.
#[derive(Debug)]
pub struct CompileResponse {
    pub code: String,
    pub tokens: Vec<Token>,
    pub ast: AstNode,
    pub checked_ast: AstNode,
}

/// The intermediate data of one compile.
#[derive(Debug)]
pub struct CompileContext {
    pub source_code: String,
    pub tokens: Vec<Token>,
    pub ast: AstNode,
    pub checked_ast: AstNode,
    pub generated_code: String,
}

} // verus!
