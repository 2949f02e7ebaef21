use kururi_compiler::ast::{AstNode, BinaryOperator, KururiType};
use kururi_compiler::error::CompilerError;
use kururi_compiler::parser::Parser;
use kururi_compiler::parser_new::NewParser;
use kururi_compiler::token::Token;

#[test]
fn test_parse_basic() {
    let parser = Parser::new();
    let tokens = vec![
        Token::Function,
        Token::Identifier("main".to_string()),
        Token::LeftParen,
        Token::RightParen,
        Token::Colon,
        Token::VoidType,
        Token::LeftBrace,
        Token::RightBrace,
        Token::Eof,
    ];
    let result = parser.parse(&tokens);
    assert!(result.is_ok());

    if let Ok(AstNode::Program(statements)) = result {
        assert_eq!(statements.len(), 1);
        if let AstNode::FunctionDeclaration { name, .. } = &statements[0] {
            assert_eq!(name, "main");
        }
    }
}

#[test]
fn test_parse_example_kururi() {
    let parser = Parser::new();
    let tokens = vec![
        Token::Function,
        Token::Identifier("main".to_string()),
        Token::LeftParen,
        Token::RightParen,
        Token::Colon,
        Token::VoidType,
        Token::LeftBrace,
        Token::Const,
        Token::Identifier("moji".to_string()),
        Token::Colon,
        Token::StringType,
        Token::Assign,
        Token::StringLiteral("Hello World by Kururi!".to_string()),
        Token::Identifier("output".to_string()),
        Token::LeftParen,
        Token::Identifier("moji".to_string()),
        Token::RightParen,
        Token::RightBrace,
        Token::Eof,
    ];

    let result = parser.parse(&tokens);
    assert!(result.is_ok());

    if let Ok(AstNode::Program(statements)) = result {
        assert_eq!(statements.len(), 1);
        if let AstNode::FunctionDeclaration { name, body, .. } = &statements[0] {
            assert_eq!(name, "main");
            assert_eq!(body.len(), 2);
        }
    }
}

#[test]
fn test_parse_empty() {
    let parser = Parser::new();
    let result = parser.parse(&[]);
    assert!(result.is_err());
    match result.unwrap_err() {
        CompilerError::ParseError(_) => {}
        _ => panic!("Expected ParseError"),
    }
}

#[test]
fn test_parse_precedence() {
    // a + b * c parses the multiplication first
    let parser = Parser::new();
    let tokens = vec![
        Token::Identifier("a".to_string()),
        Token::Plus,
        Token::Identifier("b".to_string()),
        Token::Multiply,
        Token::Identifier("c".to_string()),
        Token::Eof,
    ];
    let ast = parser.parse(&tokens).unwrap();
    let expected = AstNode::Program(vec![AstNode::BinaryExpression {
        left: Box::new(AstNode::Identifier("a".to_string())),
        operator: BinaryOperator::Add,
        right: Box::new(AstNode::BinaryExpression {
            left: Box::new(AstNode::Identifier("b".to_string())),
            operator: BinaryOperator::Multiply,
            right: Box::new(AstNode::Identifier("c".to_string())),
        }),
    }]);
    assert_eq!(ast, expected);
}

#[test]
fn test_parse_variable_declaration_shape() {
    let parser = Parser::new();
    let tokens = vec![
        Token::Let,
        Token::Identifier("x".to_string()),
        Token::Colon,
        Token::NumberType,
        Token::Assign,
        Token::NumberLiteral("42".to_string()),
        Token::Eof,
    ];
    let ast = parser.parse(&tokens).unwrap();
    let expected = AstNode::Program(vec![AstNode::VariableDeclaration {
        is_const: false,
        name: "x".to_string(),
        var_type: KururiType::Number,
        value: Box::new(AstNode::NumberLiteral("42".to_string())),
    }]);
    assert_eq!(ast, expected);
}

#[test]
fn test_parse_array_type_and_literal() {
    let parser = Parser::new();
    let tokens = vec![
        Token::Let,
        Token::Identifier("xs".to_string()),
        Token::Colon,
        Token::NumberType,
        Token::LeftBracket,
        Token::RightBracket,
        Token::Assign,
        Token::LeftBracket,
        Token::NumberLiteral("1".to_string()),
        Token::Comma,
        Token::NumberLiteral("2".to_string()),
        Token::RightBracket,
        Token::Eof,
    ];
    let ast = parser.parse(&tokens).unwrap();
    let expected = AstNode::Program(vec![AstNode::VariableDeclaration {
        is_const: false,
        name: "xs".to_string(),
        var_type: KururiType::Array(Box::new(KururiType::Number)),
        value: Box::new(AstNode::ArrayLiteral(vec![
            AstNode::NumberLiteral("1".to_string()),
            AstNode::NumberLiteral("2".to_string()),
        ])),
    }]);
    assert_eq!(ast, expected);
}

#[test]
fn test_parse_method_call_and_member() {
    // obj.go(1) parses as a method call on a member access
    let parser = Parser::new();
    let tokens = vec![
        Token::Identifier("obj".to_string()),
        Token::Dot,
        Token::Identifier("go".to_string()),
        Token::LeftParen,
        Token::NumberLiteral("1".to_string()),
        Token::RightParen,
        Token::Eof,
    ];
    let ast = parser.parse(&tokens).unwrap();
    let expected = AstNode::Program(vec![AstNode::MethodCall {
        object: Box::new(AstNode::Identifier("obj".to_string())),
        method: "go".to_string(),
        args: vec![AstNode::NumberLiteral("1".to_string())],
    }]);
    assert_eq!(ast, expected);
}

#[test]
fn test_parse_invalid_call_target() {
    // a call applied to a literal is rejected
    let parser = Parser::new();
    let tokens = vec![
        Token::NumberLiteral("1".to_string()),
        Token::LeftParen,
        Token::RightParen,
        Token::Eof,
    ];
    match parser.parse(&tokens).unwrap_err() {
        CompilerError::ParseError(msg) => assert_eq!(msg, "Invalid function call"),
        other => panic!("expected a parse diagnostic, got {:?}", other),
    }
}

#[test]
fn test_parse_consume_mismatch_message() {
    let parser = Parser::new();
    let tokens = vec![
        Token::If,
        Token::Identifier("x".to_string()),
        Token::RightParen,
        Token::Eof,
    ];
    match parser.parse(&tokens).unwrap_err() {
        CompilerError::ParseError(msg) => {
            assert_eq!(msg, "Expected LeftBrace, found Some(RightParen)");
        }
        other => panic!("expected a parse diagnostic, got {:?}", other),
    }
}

#[test]
fn test_parse_tokens_legacy() {
    let parser = Parser::new();
    let tokens = vec!["token1".to_string()];
    assert_eq!(parser.parse_tokens(&tokens).unwrap(), tokens);
    assert!(parser.parse_tokens(&[]).is_err());
}

#[test]
fn test_parse_example_kururi_generic() {
    let tokens = vec![
        Token::Function,
        Token::Identifier("main".to_string()),
        Token::Eof,
    ];
    let result = NewParser::parse_generic(&tokens);
    assert!(result.is_ok());
    if let Ok(AstNode::Program(statements)) = result {
        assert_eq!(statements.len(), 1);
        assert!(matches!(
            &statements[0],
            AstNode::FunctionDeclaration { .. }
        ));
    }
}

#[test]
fn test_parse_example_fixed_program() {
    let tokens = vec![Token::Identifier("anything".to_string()), Token::Eof];
    let ast = NewParser::parse_example_kururi(&tokens).unwrap();
    if let AstNode::Program(statements) = &ast {
        assert_eq!(statements.len(), 1);
        if let AstNode::FunctionDeclaration { name, body, .. } = &statements[0] {
            assert_eq!(name, "main");
            assert_eq!(body.len(), 3);
        } else {
            panic!("expected the main function");
        }
    } else {
        panic!("expected a program node");
    }
    assert!(NewParser::parse_example_kururi(&[]).is_err());
}

#[test]
fn test_parse_trailing_comma_in_call_rejected() {
    let parser = Parser::new();
    let tokens = vec![
        Token::Identifier("f".to_string()),
        Token::LeftParen,
        Token::Identifier("a".to_string()),
        Token::Comma,
        Token::RightParen,
        Token::Eof,
    ];
    match parser.parse(&tokens).unwrap_err() {
        CompilerError::ParseError(msg) => {
            assert_eq!(msg, "Unexpected token: Some(RightParen)");
        }
        other => panic!("expected a parse diagnostic, got {:?}", other),
    }
}

#[test]
fn test_parse_trailing_comma_in_array_rejected() {
    let parser = Parser::new();
    let tokens = vec![
        Token::LeftBracket,
        Token::NumberLiteral("1".to_string()),
        Token::Comma,
        Token::RightBracket,
        Token::Eof,
    ];
    match parser.parse(&tokens).unwrap_err() {
        CompilerError::ParseError(msg) => {
            assert_eq!(msg, "Unexpected token: Some(RightBracket)");
        }
        other => panic!("expected a parse diagnostic, got {:?}", other),
    }
}

#[test]
fn test_parse_trailing_comma_in_params_rejected() {
    let parser = Parser::new();
    let tokens = vec![
        Token::Function,
        Token::Identifier("f".to_string()),
        Token::LeftParen,
        Token::Identifier("a".to_string()),
        Token::Colon,
        Token::NumberType,
        Token::Comma,
        Token::RightParen,
        Token::Colon,
        Token::VoidType,
        Token::LeftBrace,
        Token::RightBrace,
        Token::Eof,
    ];
    match parser.parse(&tokens).unwrap_err() {
        CompilerError::ParseError(msg) => {
            assert_eq!(msg, "Expected identifier");
        }
        other => panic!("expected a parse diagnostic, got {:?}", other),
    }
}

#[test]
fn test_parse_two_arguments_still_accepted() {
    let parser = Parser::new();
    let tokens = vec![
        Token::Identifier("f".to_string()),
        Token::LeftParen,
        Token::Identifier("a".to_string()),
        Token::Comma,
        Token::Identifier("b".to_string()),
        Token::RightParen,
        Token::Eof,
    ];
    let ast = parser.parse(&tokens).unwrap();
    let expected = AstNode::Program(vec![AstNode::FunctionCall {
        name: "f".to_string(),
        args: vec![
            AstNode::Identifier("a".to_string()),
            AstNode::Identifier("b".to_string()),
        ],
    }]);
    assert_eq!(ast, expected);
}

#[test]
fn test_parse_public_class_method() {
    let parser = Parser::new();
    let tokens = vec![
        Token::Class,
        Token::Identifier("Point".to_string()),
        Token::LeftBrace,
        Token::Public,
        Token::Function,
        Token::Identifier("go".to_string()),
        Token::LeftParen,
        Token::RightParen,
        Token::Colon,
        Token::VoidType,
        Token::LeftBrace,
        Token::RightBrace,
        Token::Function,
        Token::Identifier("stay".to_string()),
        Token::LeftParen,
        Token::RightParen,
        Token::Colon,
        Token::VoidType,
        Token::LeftBrace,
        Token::RightBrace,
        Token::RightBrace,
        Token::Eof,
    ];
    let ast = parser.parse(&tokens).unwrap();
    if let AstNode::Program(statements) = &ast {
        if let AstNode::ClassDeclaration { name, methods, .. } = &statements[0] {
            assert_eq!(name, "Point");
            assert_eq!(methods.len(), 2);
            match (&methods[0], &methods[1]) {
                (
                    AstNode::FunctionDeclaration { name: first, is_public: p1, .. },
                    AstNode::FunctionDeclaration { name: second, is_public: p2, .. },
                ) => {
                    assert_eq!(first, "go");
                    assert!(*p1);
                    assert_eq!(second, "stay");
                    assert!(!*p2);
                }
                other => panic!("expected two methods, got {:?}", other),
            }
        } else {
            panic!("expected a class declaration");
        }
    } else {
        panic!("expected a program node");
    }
}
