use kururi_compiler::ast::{AstNode, KururiType};
use kururi_compiler::error::CompilerError;
use kururi_compiler::semantic::SemanticAnalyzer;

#[test]
fn test_analyze_basic() {
    let analyzer = SemanticAnalyzer::new();
    let ast = vec!["node1".to_string(), "node2".to_string()];
    let result = analyzer.analyze(&ast);
    assert!(result.is_ok());
    assert_eq!(result.unwrap(), ast);
}

#[test]
fn test_analyze_empty() {
    let analyzer = SemanticAnalyzer::new();
    let result = analyzer.analyze(&[]);
    assert!(result.is_err());
    match result.unwrap_err() {
        CompilerError::SemanticError(_) => {}
        _ => panic!("Expected SemanticError"),
    }
}

#[test]
fn test_analyze_function_call() {
    let mut analyzer = SemanticAnalyzer::new();

    let output_call = AstNode::FunctionCall {
        name: "output".to_string(),
        args: vec![AstNode::StringLiteral("hello".to_string())],
    };

    let result = analyzer.analyze_ast(&output_call);
    assert!(result.is_ok());
}

#[test]
fn test_analyze_undefined_function() {
    let mut analyzer = SemanticAnalyzer::new();

    let undefined_call = AstNode::FunctionCall {
        name: "undefined_func".to_string(),
        args: vec![],
    };

    let result = analyzer.analyze_ast(&undefined_call);
    assert!(result.is_err());
    match result.unwrap_err() {
        CompilerError::SemanticError(msg) => {
            assert!(msg.contains("Undefined function"));
        }
        _ => panic!("Expected SemanticError"),
    }
}

#[test]
fn test_analyze_undefined_variable() {
    let mut analyzer = SemanticAnalyzer::new();
    let result = analyzer.analyze_ast(&AstNode::Identifier("undefined_name".to_string()));
    match result.unwrap_err() {
        CompilerError::SemanticError(msg) => {
            assert_eq!(msg, "Undefined variable: undefined_name");
        }
        _ => panic!("Expected SemanticError"),
    }
}

#[test]
fn test_analyze_type_mismatch() {
    let mut analyzer = SemanticAnalyzer::new();
    let decl = AstNode::VariableDeclaration {
        is_const: true,
        name: "x".to_string(),
        var_type: KururiType::Number,
        value: Box::new(AstNode::StringLiteral("hello".to_string())),
    };
    let result = analyzer.analyze_ast(&decl);
    match result.unwrap_err() {
        CompilerError::SemanticError(msg) => {
            assert_eq!(msg, "Type mismatch: expected number, found string");
        }
        _ => panic!("Expected SemanticError"),
    }
}

#[test]
fn test_analyze_declaration_then_use() {
    let mut analyzer = SemanticAnalyzer::new();
    let decl = AstNode::VariableDeclaration {
        is_const: false,
        name: "x".to_string(),
        var_type: KururiType::Number,
        value: Box::new(AstNode::NumberLiteral("1".to_string())),
    };
    assert!(analyzer.analyze_ast(&decl).is_ok());
    assert!(analyzer.analyze_ast(&AstNode::Identifier("x".to_string())).is_ok());
}

#[test]
fn test_analyze_arity_mismatch() {
    let mut analyzer = SemanticAnalyzer::new();
    let call = AstNode::FunctionCall {
        name: "output".to_string(),
        args: vec![],
    };
    match analyzer.analyze_ast(&call).unwrap_err() {
        CompilerError::SemanticError(msg) => {
            assert_eq!(msg, "Function output expects 1 arguments, got 0");
        }
        _ => panic!("Expected SemanticError"),
    }
}

#[test]
fn test_analyze_argument_type_mismatch() {
    let mut analyzer = SemanticAnalyzer::new();
    let call = AstNode::FunctionCall {
        name: "output".to_string(),
        args: vec![AstNode::NumberLiteral("1".to_string())],
    };
    match analyzer.analyze_ast(&call).unwrap_err() {
        CompilerError::SemanticError(msg) => {
            assert_eq!(msg, "Argument 1 type mismatch: expected string, found number");
        }
        _ => panic!("Expected SemanticError"),
    }
}

#[test]
fn test_analyze_for_scope_is_local() {
    let mut analyzer = SemanticAnalyzer::new();
    // for i i < 9 { let inner: number = i }
    let loop_stmt = AstNode::ForStatement {
        counter_var: "i".to_string(),
        condition: Box::new(AstNode::BinaryExpression {
            left: Box::new(AstNode::Identifier("i".to_string())),
            operator: kururi_compiler::ast::BinaryOperator::LessThan,
            right: Box::new(AstNode::NumberLiteral("9".to_string())),
        }),
        body: vec![AstNode::VariableDeclaration {
            is_const: false,
            name: "inner".to_string(),
            var_type: KururiType::Number,
            value: Box::new(AstNode::Identifier("i".to_string())),
        }],
    };
    assert!(analyzer.analyze_ast(&loop_stmt).is_ok());
    // the counter and the block-local binding are both gone after the block
    assert!(!analyzer.is_variable_defined("i"));
    assert!(!analyzer.is_variable_defined("inner"));
}

#[test]
fn test_analyze_assignment_to_undefined() {
    let mut analyzer = SemanticAnalyzer::new();
    let assign = AstNode::Assignment {
        target: Box::new(AstNode::Identifier("ghostly".to_string())),
        value: Box::new(AstNode::NumberLiteral("1".to_string())),
    };
    match analyzer.analyze_ast(&assign).unwrap_err() {
        CompilerError::SemanticError(msg) => {
            assert_eq!(msg, "Undefined variable: ghostly");
        }
        _ => panic!("Expected SemanticError"),
    }
}

#[test]
fn test_analyze_assignment_target_must_be_identifier() {
    let mut analyzer = SemanticAnalyzer::new();
    let assign = AstNode::Assignment {
        target: Box::new(AstNode::NumberLiteral("1".to_string())),
        value: Box::new(AstNode::NumberLiteral("2".to_string())),
    };
    match analyzer.analyze_ast(&assign).unwrap_err() {
        CompilerError::SemanticError(msg) => {
            assert_eq!(msg, "Assignment target must be an identifier");
        }
        _ => panic!("Expected SemanticError"),
    }
}

#[test]
fn test_expression_types() {
    let analyzer = SemanticAnalyzer::new();
    // number + number is a number
    let numeric = AstNode::BinaryExpression {
        left: Box::new(AstNode::NumberLiteral("1".to_string())),
        operator: kururi_compiler::ast::BinaryOperator::Add,
        right: Box::new(AstNode::NumberLiteral("2".to_string())),
    };
    assert_eq!(analyzer.get_expression_type(&numeric).unwrap(), KururiType::Number);
    // string + number concatenates
    let mixed = AstNode::BinaryExpression {
        left: Box::new(AstNode::StringLiteral("a".to_string())),
        operator: kururi_compiler::ast::BinaryOperator::Add,
        right: Box::new(AstNode::NumberLiteral("2".to_string())),
    };
    assert_eq!(analyzer.get_expression_type(&mixed).unwrap(), KururiType::String);
    // comparisons type as the boolean stand-in
    let cmp = AstNode::BinaryExpression {
        left: Box::new(AstNode::NumberLiteral("1".to_string())),
        operator: kururi_compiler::ast::BinaryOperator::LessThan,
        right: Box::new(AstNode::NumberLiteral("2".to_string())),
    };
    assert_eq!(analyzer.get_expression_type(&cmp).unwrap(), KururiType::String);
    // an array literal takes its first element's type
    let arr = AstNode::ArrayLiteral(vec![AstNode::NumberLiteral("1".to_string())]);
    assert_eq!(
        analyzer.get_expression_type(&arr).unwrap(),
        KururiType::Array(Box::new(KururiType::Number))
    );
    let empty = AstNode::ArrayLiteral(vec![]);
    assert_eq!(
        analyzer.get_expression_type(&empty).unwrap(),
        KururiType::Array(Box::new(KururiType::String))
    );
}

#[test]
fn test_analyze_while_body_is_checked() {
    let mut analyzer = SemanticAnalyzer::new();
    let loop_stmt = AstNode::WhileStatement {
        condition: Box::new(AstNode::BooleanLiteral(true)),
        body: vec![AstNode::Identifier("ghostly".to_string())],
    };
    match analyzer.analyze_ast(&loop_stmt).unwrap_err() {
        CompilerError::SemanticError(msg) => {
            assert_eq!(msg, "Undefined variable: ghostly");
        }
        _ => panic!("Expected SemanticError"),
    }
}

#[test]
fn test_analyze_while_scope_is_local() {
    let mut analyzer = SemanticAnalyzer::new();
    let loop_stmt = AstNode::WhileStatement {
        condition: Box::new(AstNode::BooleanLiteral(true)),
        body: vec![AstNode::VariableDeclaration {
            is_const: false,
            name: "inner".to_string(),
            var_type: KururiType::Number,
            value: Box::new(AstNode::NumberLiteral("1".to_string())),
        }],
    };
    assert!(analyzer.analyze_ast(&loop_stmt).is_ok());
    assert!(!analyzer.is_variable_defined("inner"));
}

#[test]
fn test_analyze_if_scope_is_local() {
    let mut analyzer = SemanticAnalyzer::new();
    let branch = AstNode::IfStatement {
        condition: Box::new(AstNode::BooleanLiteral(true)),
        then_body: vec![AstNode::VariableDeclaration {
            is_const: false,
            name: "then_only".to_string(),
            var_type: KururiType::Number,
            value: Box::new(AstNode::NumberLiteral("1".to_string())),
        }],
        elseif_branches: vec![],
        else_body: Some(vec![AstNode::VariableDeclaration {
            is_const: false,
            name: "else_only".to_string(),
            var_type: KururiType::String,
            value: Box::new(AstNode::StringLiteral("x".to_string())),
        }]),
    };
    assert!(analyzer.analyze_ast(&branch).is_ok());
    assert!(!analyzer.is_variable_defined("then_only"));
    assert!(!analyzer.is_variable_defined("else_only"));
}

#[test]
fn test_analyze_elseif_branch_is_checked() {
    let mut analyzer = SemanticAnalyzer::new();
    let branch = AstNode::IfStatement {
        condition: Box::new(AstNode::BooleanLiteral(true)),
        then_body: vec![],
        elseif_branches: vec![(
            AstNode::BooleanLiteral(false),
            vec![AstNode::Identifier("ghostly".to_string())],
        )],
        else_body: None,
    };
    match analyzer.analyze_ast(&branch).unwrap_err() {
        CompilerError::SemanticError(msg) => {
            assert_eq!(msg, "Undefined variable: ghostly");
        }
        _ => panic!("Expected SemanticError"),
    }
}

#[test]
fn test_analyze_foreach_body_is_checked() {
    let mut analyzer = SemanticAnalyzer::new();
    let loop_stmt = AstNode::ForeachStatement {
        var_name: "item".to_string(),
        iterable: Box::new(AstNode::ArrayLiteral(vec![])),
        body: vec![AstNode::Identifier("ghostly".to_string())],
    };
    match analyzer.analyze_ast(&loop_stmt).unwrap_err() {
        CompilerError::SemanticError(msg) => {
            assert_eq!(msg, "Undefined variable: ghostly");
        }
        _ => panic!("Expected SemanticError"),
    }
}

#[test]
fn test_analyze_rejects_class_constructs() {
    let mut analyzer = SemanticAnalyzer::new();
    let class_decl = AstNode::ClassDeclaration {
        name: "Point".to_string(),
        fields: vec![],
        methods: vec![],
    };
    match analyzer.analyze_ast(&class_decl).unwrap_err() {
        CompilerError::SemanticError(msg) => {
            assert_eq!(msg, "Class declarations are not supported");
        }
        _ => panic!("Expected SemanticError"),
    }
    let method_call = AstNode::MethodCall {
        object: Box::new(AstNode::Identifier("p".to_string())),
        method: "go".to_string(),
        args: vec![],
    };
    match analyzer.analyze_ast(&method_call).unwrap_err() {
        CompilerError::SemanticError(msg) => {
            assert_eq!(msg, "Method calls are not supported");
        }
        _ => panic!("Expected SemanticError"),
    }
    let member = AstNode::PropertyAccess {
        object: Box::new(AstNode::Identifier("p".to_string())),
        property: "x".to_string(),
    };
    match analyzer.analyze_ast(&member).unwrap_err() {
        CompilerError::SemanticError(msg) => {
            assert_eq!(msg, "Member access is not supported");
        }
        _ => panic!("Expected SemanticError"),
    }
    let fresh = AstNode::NewExpression {
        class_name: "Point".to_string(),
        args: vec![],
    };
    match analyzer.analyze_ast(&fresh).unwrap_err() {
        CompilerError::SemanticError(msg) => {
            assert_eq!(msg, "new expressions are not supported");
        }
        _ => panic!("Expected SemanticError"),
    }
}

#[test]
fn test_analyze_rejects_new_in_initializer() {
    let mut analyzer = SemanticAnalyzer::new();
    let decl = AstNode::VariableDeclaration {
        is_const: false,
        name: "p".to_string(),
        var_type: KururiType::Class("Point".to_string()),
        value: Box::new(AstNode::NewExpression {
            class_name: "Point".to_string(),
            args: vec![],
        }),
    };
    match analyzer.analyze_ast(&decl).unwrap_err() {
        CompilerError::SemanticError(msg) => {
            assert_eq!(msg, "new expressions are not supported");
        }
        _ => panic!("Expected SemanticError"),
    }
}

#[test]
fn test_scopes_closed_after_block_diagnostic() {
    let mut analyzer = SemanticAnalyzer::new();
    // the body's diagnostic aborts the walk, but the loop's scope is closed
    let loop_stmt = AstNode::ForStatement {
        counter_var: "i".to_string(),
        condition: Box::new(AstNode::BooleanLiteral(true)),
        body: vec![AstNode::Identifier("ghostly".to_string())],
    };
    assert!(analyzer.analyze_ast(&loop_stmt).is_err());
    // the counter's scope is gone: the analyzer is back at the global scope
    assert!(!analyzer.is_variable_defined("i"));
    // and the next analysis starts clean
    assert!(analyzer
        .analyze_ast(&AstNode::VariableDeclaration {
            is_const: false,
            name: "x".to_string(),
            var_type: KururiType::Number,
            value: Box::new(AstNode::NumberLiteral("1".to_string())),
        })
        .is_ok());
}
