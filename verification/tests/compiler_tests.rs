use kururi_compiler::compiler::Compiler;
use kururi_compiler::error::{CompilerError, ErrorResponse};

#[test]
fn test_compile_full_pipeline() {
    let compiler = Compiler::new();
    let result = compiler.compile("test code");
    assert!(result.is_ok());

    let context = result.unwrap();
    assert_eq!(context.source_code, "test code");
    assert!(context.generated_code.contains("def main():"));
}

#[test]
fn test_lex_only() {
    let compiler = Compiler::new();
    let result = compiler.lex_only("test code");
    assert!(result.is_ok());
    assert_eq!(result.unwrap(), vec!["test", "code"]);
}

#[test]
fn test_parse_only() {
    let compiler = Compiler::new();
    let tokens = vec!["token1".to_string()];
    let result = compiler.parse_only(&tokens);
    assert!(result.is_ok());
    assert_eq!(result.unwrap(), tokens);
}

fn table_source() -> String {
    [
        "function main(): void {",
        "    output(\"掛け算九九の表\")",
        "    output(\"=================\")",
        "    for i i < 9 {",
        "        for j j < 9 {",
        "            let num1: number = i + 1",
        "            let num2: number = j + 1",
        "            let result: number = num1 * num2",
        "            if result < 10 {",
        "                output(\" \" + result + \" \")",
        "            } else {",
        "                output(result + \" \")",
        "            }",
        "        }",
        "    }",
        "}",
    ]
    .join("\n")
}

#[test]
fn test_compile_ast_example_kururi() {
    let mut compiler = Compiler::new();
    let source_code = table_source();

    let result = compiler.compile_ast(&source_code);
    assert!(result.is_ok(), "Compilation failed: {:?}", result.err());

    let generated_code = result.unwrap();
    println!("Generated code:\n{}", generated_code);

    assert!(generated_code.contains("def main():"));
    assert!(generated_code.contains("掛け算九九の表"));
    assert!(generated_code.contains("for i in range"));
    assert!(generated_code.contains("for j in range"));
}

#[test]
fn test_compile_ast_hello_world() {
    let mut compiler = Compiler::new();
    let source = "function main(): void { const moji: string = \"Hello World by Kururi!\"\n output(moji) }";
    let code = compiler.compile_ast(source).unwrap();
    assert!(code.contains("def main():"));
    assert!(code.contains("moji = \"Hello World by Kururi!\""));
    assert!(code.contains("print(moji)"));
}

#[test]
fn test_compile_ast_type_mismatch() {
    let mut compiler = Compiler::new();
    match compiler.compile_ast("const x: number = \"hello\"").unwrap_err() {
        CompilerError::SemanticError(msg) => {
            assert_eq!(
                msg,
                "Semantic analysis failed: Semantic analysis error: Type mismatch: expected number, found string"
            );
        }
        other => panic!("expected a semantic diagnostic, got {:?}", other),
    }
}

#[test]
fn test_compile_ast_parse_error() {
    let mut compiler = Compiler::new();
    match compiler.compile_ast("function main(): void {").unwrap_err() {
        CompilerError::ParseError(msg) => {
            assert_eq!(msg, "Parsing failed: Parse error: Unexpected token: Some(Eof)");
        }
        other => panic!("expected a parse diagnostic, got {:?}", other),
    }
}

#[test]
fn test_compile_ast_empty_source() {
    let mut compiler = Compiler::new();
    match compiler.compile_ast("").unwrap_err() {
        CompilerError::LexError(msg) => {
            assert_eq!(msg, "Lexical analysis failed: Lexical analysis error: Empty source code");
        }
        other => panic!("expected a lexical diagnostic, got {:?}", other),
    }
}

#[test]
fn test_compile_ast_deterministic() {
    let source = table_source();
    let mut first_compiler = Compiler::new();
    let mut second_compiler = Compiler::new();
    let first = first_compiler.compile_ast(&source).unwrap();
    let second = second_compiler.compile_ast(&source).unwrap();
    assert_eq!(first, second);
}

#[test]
fn test_compile_ast_table_lines() {
    let mut compiler = Compiler::new();
    let code = compiler.compile_ast(&table_source()).unwrap();
    assert!(code.contains("for i in range(int(9)):"));
    assert!(code.contains("for j in range(int(9)):"));
    assert!(code.contains("if result < 10:"));
    assert!(code.contains("else:"));
    assert!(code.contains("print(str(str(\" \") + str(result)) + str(\" \"))"));
    assert!(code.contains("print(str(result) + str(\" \"))"));
}

#[test]
fn test_parse_only_empty() {
    let compiler = Compiler::new();
    match compiler.parse_only(&[]).unwrap_err() {
        CompilerError::ParseError(msg) => assert_eq!(msg, "No tokens to parse"),
        other => panic!("expected a parse diagnostic, got {:?}", other),
    }
}

#[test]
fn test_compile_empty_source_legacy() {
    let compiler = Compiler::new();
    match compiler.compile("").unwrap_err() {
        CompilerError::LexError(msg) => {
            assert_eq!(msg, "Lexical analysis failed: Lexical analysis error: Empty source code");
        }
        other => panic!("expected a lexical diagnostic, got {:?}", other),
    }
}

#[test]
fn test_error_response_suggestions() {
    let err = CompilerError::SemanticError("Undefined variable: moji".to_string());
    let response = ErrorResponse::from_error(&err);
    assert_eq!(response.error_type, "semantic_error");
    assert_eq!(response.error, "Semantic analysis error: Undefined variable: moji");
    assert_eq!(
        response.suggestions,
        vec!["Make sure the variable is declared before use".to_string()]
    );

    let lex = CompilerError::LexError("Unexpected character: ?".to_string());
    let lex_response = ErrorResponse::from_error(&lex);
    assert_eq!(lex_response.error_type, "lexical_error");
    assert_eq!(
        lex_response.suggestions,
        vec!["Check for typos in operators and symbols".to_string()]
    );

    let generic = CompilerError::ParseError("something else".to_string());
    let parse_response = ErrorResponse::from_error(&generic);
    assert_eq!(
        parse_response.suggestions,
        vec!["Verify that your code follows Kururi syntax rules".to_string()]
    );
}

#[test]
fn test_error_display_text() {
    let err = CompilerError::CodegenError("No AST to generate code from".to_string());
    assert_eq!(
        err.display_text(),
        "Code generation error: No AST to generate code from"
    );
}
