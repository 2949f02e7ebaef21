//! End-to-end runs through the four stages with the full grammar: the
//! lexer, the recursive-descent parser, the analyzer and the emitter.

use kururi_compiler::codegen::CodeGenerator;
use kururi_compiler::error::CompilerError;
use kururi_compiler::lexer::Lexer;
use kururi_compiler::parser::Parser;
use kururi_compiler::semantic::SemanticAnalyzer;

fn run_pipeline(source: &str) -> Result<String, CompilerError> {
    let mut lexer = Lexer::new();
    let tokens = lexer.tokenize(source)?;
    let parser = Parser::new();
    let ast = parser.parse(&tokens)?;
    let mut analyzer = SemanticAnalyzer::new();
    let checked = analyzer.analyze_ast(&ast)?;
    let generator = CodeGenerator::new();
    generator.generate_ast(&checked)
}

#[test]
fn test_pipeline_hello_world() {
    let source =
        "function main(): void { const moji: string = \"Hello World by Kururi!\"\n output(moji) }";
    let code = run_pipeline(source).unwrap();
    assert!(code.contains("def main():"));
    assert!(code.contains("moji = \"Hello World by Kururi!\""));
    assert!(code.contains("print(moji)"));
}

#[test]
fn test_pipeline_undefined_variable() {
    let source = "function main(): void { output(undefined_name) }";
    match run_pipeline(source).unwrap_err() {
        CompilerError::SemanticError(msg) => {
            assert!(msg.contains("Undefined variable"));
        }
        other => panic!("expected a semantic diagnostic, got {:?}", other),
    }
}

#[test]
fn test_pipeline_undefined_function() {
    let source = "function main(): void { undefined_func() }";
    match run_pipeline(source).unwrap_err() {
        CompilerError::SemanticError(msg) => {
            assert!(msg.contains("Undefined function"));
        }
        other => panic!("expected a semantic diagnostic, got {:?}", other),
    }
}

#[test]
fn test_pipeline_type_mismatch() {
    let source = "const x: number = \"hello\"";
    match run_pipeline(source).unwrap_err() {
        CompilerError::SemanticError(msg) => {
            assert!(msg.contains("Type mismatch"));
            assert!(msg.contains("number"));
            assert!(msg.contains("string"));
        }
        other => panic!("expected a semantic diagnostic, got {:?}", other),
    }
}

#[test]
fn test_pipeline_plus_stringifies() {
    let source = "function main(): void { let s: string = \"a\" + 1\n output(s) }";
    let code = run_pipeline(source).unwrap();
    assert!(code.contains("str(\"a\") + str(1)"));
}

#[test]
fn test_pipeline_for_loops_and_branches() {
    let source = "function main(): void { for i i < 9 { let row: string = \"\"\n if i < 5 { output(row) } else { output(row) } } }";
    let code = run_pipeline(source).unwrap();
    assert!(code.contains("for i in range(int(9)):"));
    assert!(code.contains("if i < 5:"));
    assert!(code.contains("else:"));
    assert!(code.contains("print(row)"));
}

#[test]
fn test_pipeline_identical_runs_identical_bytes() {
    let source = "function main(): void { let s: string = \"a\" + 1\n output(s) }";
    assert_eq!(run_pipeline(source).unwrap(), run_pipeline(source).unwrap());
}
