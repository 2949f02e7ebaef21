use kururi_compiler::ast::{AstNode, KururiType};
use kururi_compiler::codegen::CodeGenerator;
use kururi_compiler::error::CompilerError;

#[test]
fn test_generate_basic() {
    let generator = CodeGenerator::new();
    let ast = vec!["Hello World".to_string()];
    let result = generator.generate(&ast);
    assert!(result.is_ok());
    let code = result.unwrap();
    assert!(code.contains("print(\"Hello World\")"));
    assert!(code.contains("def main():"));
}

#[test]
fn test_generate_empty() {
    let generator = CodeGenerator::new();
    let result = generator.generate(&[]);
    assert!(result.is_err());
    match result.unwrap_err() {
        CompilerError::CodegenError(_) => {}
        _ => panic!("Expected CodegenError"),
    }
}

#[test]
fn test_generate_multiple_statements() {
    let generator = CodeGenerator::new();
    let ast = vec!["Hello".to_string(), "World".to_string()];
    let result = generator.generate(&ast);
    assert!(result.is_ok());
    let code = result.unwrap();
    assert!(code.contains("print(\"Hello\")"));
    assert!(code.contains("print(\"World\")"));
}

#[test]
fn test_generate_ast_function_call() {
    let generator = CodeGenerator::new();

    let output_call = AstNode::FunctionCall {
        name: "output".to_string(),
        args: vec![AstNode::StringLiteral("Hello World".to_string())],
    };

    let result = generator.generate_ast(&output_call);
    assert!(result.is_ok());
    let code = result.unwrap();
    assert_eq!(code, "print(\"Hello World\")");
}

#[test]
fn test_generate_ast_main_function() {
    let generator = CodeGenerator::new();

    let const_declaration = AstNode::VariableDeclaration {
        is_const: true,
        name: "moji".to_string(),
        var_type: KururiType::String,
        value: Box::new(AstNode::StringLiteral("Hello World by Kururi!".to_string())),
    };

    let output_call = AstNode::FunctionCall {
        name: "output".to_string(),
        args: vec![AstNode::Identifier("moji".to_string())],
    };

    let main_function = AstNode::FunctionDeclaration {
        name: "main".to_string(),
        params: vec![],
        return_type: KururiType::Void,
        body: vec![const_declaration, output_call],
        is_public: false,
    };

    let program = AstNode::Program(vec![main_function]);

    let result = generator.generate_ast(&program);
    assert!(result.is_ok());
    let code = result.unwrap();

    assert!(code.contains("def main():"));
    assert!(code.contains("moji = \"Hello World by Kururi!\""));
    assert!(code.contains("print(moji)"));
}

#[test]
fn test_generate_ast_literals() {
    let generator = CodeGenerator::new();

    let string_result = generator.generate_ast(&AstNode::StringLiteral("test".to_string()));
    assert_eq!(string_result.unwrap(), "\"test\"");

    let number_result = generator.generate_ast(&AstNode::NumberLiteral("42".to_string()));
    assert_eq!(number_result.unwrap(), "42");

    let bool_true_result = generator.generate_ast(&AstNode::BooleanLiteral(true));
    assert_eq!(bool_true_result.unwrap(), "True");

    let bool_false_result = generator.generate_ast(&AstNode::BooleanLiteral(false));
    assert_eq!(bool_false_result.unwrap(), "False");

    let identifier_result = generator.generate_ast(&AstNode::Identifier("variable".to_string()));
    assert_eq!(identifier_result.unwrap(), "variable");
}

#[test]
fn test_generate_ast_empty_block_is_pass() {
    let generator = CodeGenerator::new();
    let main_function = AstNode::FunctionDeclaration {
        name: "main".to_string(),
        params: vec![],
        return_type: KururiType::Void,
        body: vec![],
        is_public: false,
    };
    let code = generator.generate_ast(&main_function).unwrap();
    assert_eq!(code, "def main():\n    pass");
}

#[test]
fn test_generate_ast_plus_stringifies() {
    let generator = CodeGenerator::new();
    let sum = AstNode::BinaryExpression {
        left: Box::new(AstNode::StringLiteral("a".to_string())),
        operator: kururi_compiler::ast::BinaryOperator::Add,
        right: Box::new(AstNode::NumberLiteral("1".to_string())),
    };
    let code = generator.generate_ast(&sum).unwrap();
    assert_eq!(code, "str(\"a\") + str(1)");
}

#[test]
fn test_generate_ast_for_range_bound() {
    let generator = CodeGenerator::new();
    let loop_stmt = AstNode::ForStatement {
        counter_var: "i".to_string(),
        condition: Box::new(AstNode::BinaryExpression {
            left: Box::new(AstNode::Identifier("i".to_string())),
            operator: kururi_compiler::ast::BinaryOperator::LessThan,
            right: Box::new(AstNode::NumberLiteral("9".to_string())),
        }),
        body: vec![AstNode::FunctionCall {
            name: "output".to_string(),
            args: vec![AstNode::Identifier("i".to_string())],
        }],
    };
    let code = generator.generate_ast(&loop_stmt).unwrap();
    assert_eq!(code, "for i in range(int(9)):\n    print(i)");
}

#[test]
fn test_generate_ast_for_fallback_bound() {
    let generator = CodeGenerator::new();
    let loop_stmt = AstNode::ForStatement {
        counter_var: "i".to_string(),
        condition: Box::new(AstNode::Identifier("flag".to_string())),
        body: vec![],
    };
    let code = generator.generate_ast(&loop_stmt).unwrap();
    assert_eq!(code, "for i in range(10):\n    pass");
}

#[test]
fn test_generate_ast_if_else_chain() {
    let generator = CodeGenerator::new();
    let branch = AstNode::IfStatement {
        condition: Box::new(AstNode::Identifier("a".to_string())),
        then_body: vec![AstNode::Identifier("x".to_string())],
        elseif_branches: vec![(
            AstNode::Identifier("b".to_string()),
            vec![AstNode::Identifier("y".to_string())],
        )],
        else_body: Some(vec![AstNode::Identifier("z".to_string())]),
    };
    let code = generator.generate_ast(&branch).unwrap();
    assert_eq!(code, "if a:\n    x\nelif b:\n    y\nelse:\n    z");
}

#[test]
fn test_generate_ast_escapes_quotes() {
    let generator = CodeGenerator::new();
    let lit = AstNode::StringLiteral("say \"hi\"".to_string());
    let code = generator.generate_ast(&lit).unwrap();
    assert_eq!(code, "\"say \\\"hi\\\"\"");
}
