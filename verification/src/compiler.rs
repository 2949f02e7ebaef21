//! The pipeline driver: lexing, the full grammar parse, semantic analysis
//! and code emission run in order, each stage consuming exactly the
//! previous stage's artifact. A stage's diagnostic keeps its kind but its
//! message is deliberately wrapped with the stage name rather than
//! surfaced verbatim, so a caller sees at a glance which stage failed.
//!
//! One driver owns its per-job state (the lexer, the analyzer's scope stack
//! and function table, the emitter); separate drivers share nothing. The
//! whole compile is [`spec_compile_ast`] of the source buffer and the
//! analyzer's scope stack, so identical inputs give identical output bytes.

use vstd::prelude::*;

use crate::ast::{AstModel, AstNode};
use crate::codegen::{spec_gen, spec_generate_legacy, CodeGenerator};
use crate::error::{spec_error_display, CompilerError, ErrorModel};
use crate::lexer::{spec_tokenize, Lexer};
use crate::parser::{spec_parse, Parser};
use crate::semantic::{spec_analyze, ScopeStackModel, SemanticAnalyzer};
use crate::text;
use crate::types::CompileContext;

verus! {

/// The outcome of the whole pipeline on a source buffer, starting from the
/// given scope stack: the emitted text and the scope stack the walk leaves
/// behind, or the first diagnostic with its stage-wrapped message.
pub open spec fn spec_compile_ast(scopes: ScopeStackModel, src: Seq<char>) -> Result<
    (Seq<char>, ScopeStackModel),
    ErrorModel,
> {
    match spec_tokenize(src) {
        Err(m) => Err(
            ErrorModel::Lex("Lexical analysis failed: "@ + spec_error_display(ErrorModel::Lex(m))),
        ),
        Ok(toks) => match spec_parse(toks) {
            Err(m) => Err(
                ErrorModel::Parse(
                    "Parsing failed: "@ + spec_error_display(ErrorModel::Parse(m)),
                ),
            ),
            Ok(ast) => match spec_analyze(scopes, ast) {
                Err(m) => Err(
                    ErrorModel::Semantic(
                        "Semantic analysis failed: "@ + spec_error_display(
                            ErrorModel::Semantic(m),
                        ),
                    ),
                ),
                Ok(ns) => Ok((spec_gen(ns.0), ns.1)),
            },
        },
    }
}

/// The outcome of the older whole-compile path on a source buffer.
pub open spec fn spec_compile_legacy(src: Seq<char>) -> Result<Seq<char>, ErrorModel> {
    if src.len() == 0 {
        Err(
            ErrorModel::Lex(
                "Lexical analysis failed: "@ + spec_error_display(
                    ErrorModel::Lex("Empty source code"@),
                ),
            ),
        )
    } else {
        Ok(spec_generate_legacy(seq!["dummy"@]))
    }
}

/// The integrated compiler: one instance per job.
pub struct Compiler {
    lexer: Lexer,
    semantic_analyzer: SemanticAnalyzer,
    code_generator: CodeGenerator,
}

impl Compiler {
    /// The analyzer's function table is the built-in one.
    pub closed spec fn wf(&self) -> bool {
        self.semantic_analyzer.wf()
    }

    /// The analyzer's scope stack.
    pub closed spec fn scopes_model(&self) -> ScopeStackModel {
        self.semantic_analyzer.scopes_model()
    }

    /// Creates a compiler with a fresh lexer, analyzer and generator.
    pub fn new() -> (r: Compiler)
        ensures
            r.wf(),
            r.scopes_model() == seq![Seq::<(Seq<char>, crate::ast::TypeModel)>::empty()],
    {
        Compiler {
            lexer: Lexer::new(),
            semantic_analyzer: SemanticAnalyzer::new(),
            code_generator: CodeGenerator::new(),
        }
    }

    /// Runs the older whole-compile path: a whitespace split, a placeholder
    /// tree, and the older emitter.
    pub fn compile(&self, source_code: &str) -> (r: Result<CompileContext, CompilerError>)
        ensures
            match spec_compile_legacy(source_code@) {
                Ok(code) => (r matches Ok(ctx) && ctx.generated_code@ == code && ctx.source_code@
                    == source_code@ && ctx.tokens@.len() == 0 && ctx.ast.model()
                    == AstModel::Program(Seq::empty()) && ctx.checked_ast.model()
                    == AstModel::Program(Seq::empty())),
                Err(e) => (r matches Err(err) && err.deep_view() == e),
            },
    {
        let _tokens = match self.lexer.tokenize_strings(source_code) {
            Ok(t) => t,
            Err(e) => {
                return Err(CompilerError::LexError(wrap_stage("Lexical analysis failed: ", &e)));
            },
        };
        // placeholder artifact of the older path
        let mut ast: Vec<String> = Vec::new();
        ast.push(String::from_str("dummy"));
        proof {
            assert(ast.deep_view() =~= seq!["dummy"@]);
        }
        let checked_ast = match self.semantic_analyzer.analyze(ast.as_slice()) {
            Ok(c) => c,
            Err(e) => {
                return Err(
                    CompilerError::SemanticError(wrap_stage("Semantic analysis failed: ", &e)),
                );
            },
        };
        let generated_code = match self.code_generator.generate(checked_ast.as_slice()) {
            Ok(g) => g,
            Err(e) => {
                return Err(CompilerError::CodegenError(wrap_stage("Code generation failed: ", &e)));
            },
        };
        let empty_stmts: Vec<AstNode> = Vec::new();
        proof {
            assert(AstNode::models(empty_stmts@) =~= Seq::<AstModel>::empty());
        }
        let dummy_ast = AstNode::Program(empty_stmts);
        let empty_stmts2: Vec<AstNode> = Vec::new();
        proof {
            assert(AstNode::models(empty_stmts2@) =~= Seq::<AstModel>::empty());
        }
        let dummy_checked_ast = AstNode::Program(empty_stmts2);
        let dummy_tokens: Vec<crate::token::Token> = Vec::new();
        Ok(
            CompileContext {
                source_code: source_code.to_owned(),
                tokens: dummy_tokens,
                ast: dummy_ast,
                checked_ast: dummy_checked_ast,
                generated_code,
            },
        )
    }

    /// Runs only the older whitespace split.
    pub fn lex_only(&self, source_code: &str) -> (r: Result<Vec<String>, CompilerError>)
        ensures
            match r {
                Ok(words) => source_code@.len() != 0 && words.deep_view()
                    == crate::lexer::split_words_from(source_code@, 0),
                Err(e) => source_code@.len() == 0 && e.deep_view() == ErrorModel::Lex(
                    "Empty source code"@,
                ),
            },
    {
        self.lexer.tokenize_strings(source_code)
    }

    /// Runs only lexical analysis, as [`spec_tokenize`] says.
    pub fn lex_tokens(&mut self, source_code: &str) -> (r: Result<
        Vec<crate::token::Token>,
        CompilerError,
    >)
        ensures
            match r {
                Ok(tokens) => spec_tokenize(source_code@) == Ok::<_, Seq<char>>(
                    tokens.deep_view(),
                ),
                Err(e) => {
                    &&& e.deep_view() matches ErrorModel::Lex(m)
                    &&& spec_tokenize(source_code@) == Err::<
                        Seq<crate::token::TokenModel>,
                        _,
                    >(m)
                },
            },
    {
        self.lexer.tokenize(source_code)
    }

    /// Passes the older token shape through unchanged; an empty token list
    /// is a parse diagnostic.
    pub fn parse_only(&self, tokens: &[String]) -> (r: Result<Vec<String>, CompilerError>)
        ensures
            tokens@.len() == 0 ==> (r matches Err(e) && e.deep_view() == ErrorModel::Parse(
                "No tokens to parse"@,
            )),
            tokens@.len() != 0 ==> (r matches Ok(v) && v.deep_view() == tokens.deep_view()),
    {
        if tokens.is_empty() {
            return Err(CompilerError::ParseError(String::from_str("No tokens to parse")));
        }
        Ok(crate::semantic::copy_strings(tokens))
    }

    /// Runs only the older semantic pass.
    pub fn analyze_only(&self, ast: &[String]) -> (r: Result<Vec<String>, CompilerError>)
        ensures
            ast@.len() == 0 ==> (r matches Err(e) && e.deep_view() == ErrorModel::Semantic(
                "No AST to analyze"@,
            )),
            ast@.len() != 0 ==> (r matches Ok(v) && v.deep_view() == ast.deep_view()),
    {
        self.semantic_analyzer.analyze(ast)
    }

    /// Runs only the older emitter.
    pub fn generate_only(&self, checked_ast: &[String]) -> (r: Result<String, CompilerError>)
        ensures
            checked_ast@.len() == 0 ==> (r matches Err(e) && e.deep_view() == ErrorModel::Codegen(
                "No AST to generate code from"@,
            )),
            checked_ast@.len() != 0 ==> (r matches Ok(s) && s@ == spec_generate_legacy(
                checked_ast.deep_view(),
            )),
    {
        self.code_generator.generate(checked_ast)
    }

    /// Runs the whole pipeline on a source buffer, as [`spec_compile_ast`]
    /// says: the token stream, the grammar parse, the semantic walk and the
    /// emitter, each diagnostic wrapped with its stage name. A lexical or
    /// parse diagnostic leaves the analyzer's scope stack untouched.
    pub fn compile_ast(&mut self, source_code: &str) -> (r: Result<String, CompilerError>)
        requires
            old(self).wf(),
        ensures
            final(self).wf(),
            match spec_compile_ast(old(self).scopes_model(), source_code@) {
                Ok(cs) => (r matches Ok(s) && s@ == cs.0 && final(self).scopes_model() == cs.1),
                Err(e) => {
                    &&& (r matches Err(err) && err.deep_view() == e)
                    &&& (!(e is Semantic) ==> final(self).scopes_model() == old(self).scopes_model())
                    &&& (e is Semantic ==> final(self).scopes_model().len() == old(self).scopes_model().len())
                },
            },
    {
        let tokens = match self.lexer.tokenize(source_code) {
            Ok(t) => t,
            Err(e) => {
                return Err(CompilerError::LexError(wrap_stage("Lexical analysis failed: ", &e)));
            },
        };
        let parser = Parser::new();
        let ast = match parser.parse(tokens.as_slice()) {
            Ok(a) => a,
            Err(e) => {
                return Err(CompilerError::ParseError(wrap_stage("Parsing failed: ", &e)));
            },
        };
        let checked_ast = match self.semantic_analyzer.analyze_ast(&ast) {
            Ok(c) => c,
            Err(e) => {
                return Err(
                    CompilerError::SemanticError(wrap_stage("Semantic analysis failed: ", &e)),
                );
            },
        };
        match self.code_generator.generate_ast(&checked_ast) {
            Ok(code) => Ok(code),
            Err(e) => Err(CompilerError::CodegenError(wrap_stage("Code generation failed: ", &e))),
        }
    }
}

impl Default for Compiler {
    /// A fresh compiler, as [`Compiler::new`] gives.
    fn default() -> (r: Compiler)
        ensures
            r.wf(),
    {
        Compiler::new()
    }
}

/// Prefixes a stage name to the rendered inner diagnostic.
fn wrap_stage(prefix: &str, e: &CompilerError) -> (r: String)
    ensures
        r@ == prefix@ + spec_error_display(e.deep_view()),
{
    let mut msg: Vec<char> = Vec::new();
    text::push_str_chars(&mut msg, prefix);
    let rendered = e.display_text();
    text::push_str_chars(&mut msg, rendered.as_str());
    text::chars_to_string(&msg)
}


/// End-to-end determinism: identical source text and identical starting
/// state give identical output bytes.
pub proof fn lemma_compile_deterministic(
    sc1: ScopeStackModel,
    sc2: ScopeStackModel,
    s1: Seq<char>,
    s2: Seq<char>,
)
    requires
        sc1 == sc2,
        s1 == s2,
    ensures
        spec_compile_ast(sc1, s1) == spec_compile_ast(sc2, s2),
{
}

} // verus!
