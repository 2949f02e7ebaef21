use kururi_compiler::lexer::Lexer;
use kururi_compiler::token::Token;

#[test]
fn test_tokenize_basic() {
    let mut lexer = Lexer::new();
    let result = lexer.tokenize("let x: number = 42");
    assert!(result.is_ok());
    let tokens = result.unwrap();
    assert_eq!(tokens[0], Token::Let);
    assert_eq!(tokens[1], Token::Identifier("x".to_string()));
    assert_eq!(tokens[2], Token::Colon);
    assert_eq!(tokens[3], Token::NumberType);
    assert_eq!(tokens[4], Token::Assign);
    assert_eq!(tokens[5], Token::NumberLiteral("42".to_string()));
}

#[test]
fn test_tokenize_string_literal() {
    let mut lexer = Lexer::new();
    let result = lexer.tokenize(r#"const msg: string = "Hello World""#);
    assert!(result.is_ok());
    let tokens = result.unwrap();
    println!("Tokens: {:?}", tokens);
    assert_eq!(tokens[0], Token::Const);
    let string_token = tokens.iter().find(|t| matches!(t, Token::StringLiteral(_)));
    assert!(string_token.is_some());
    assert_eq!(*string_token.unwrap(), Token::StringLiteral("Hello World".to_string()));
}

#[test]
fn test_tokenize_function() {
    let mut lexer = Lexer::new();
    let result = lexer.tokenize("function main(): void {}");
    assert!(result.is_ok());
    let tokens = result.unwrap();
    assert_eq!(tokens[0], Token::Function);
    assert_eq!(tokens[1], Token::Identifier("main".to_string()));
    assert_eq!(tokens[2], Token::LeftParen);
    assert_eq!(tokens[3], Token::RightParen);
    assert_eq!(tokens[4], Token::Colon);
    assert_eq!(tokens[5], Token::VoidType);
    assert_eq!(tokens[6], Token::LeftBrace);
    assert_eq!(tokens[7], Token::RightBrace);
}

#[test]
fn test_tokenize_empty() {
    let mut lexer = Lexer::new();
    let result = lexer.tokenize("");
    assert!(result.is_err());
}

#[test]
fn test_tokenize_comments() {
    let mut lexer = Lexer::new();
    let result = lexer.tokenize("let x = 5 // this is a comment\nlet y = 10");
    assert!(result.is_ok());
    let tokens = result.unwrap();
    assert!(tokens.contains(&Token::Newline));
}

#[test]
fn test_tokenize_example_kururi() {
    let mut lexer = Lexer::new();
    let source = r#"function main(): void{
    const moji: string = "Hello World by Kururi!"
    output(moji)
}"#;
    let result = lexer.tokenize(source);
    assert!(result.is_ok());
    let tokens = result.unwrap();

    let expected_tokens = [
        Token::Function,
        Token::Identifier("main".to_string()),
        Token::LeftParen,
        Token::RightParen,
        Token::Colon,
        Token::VoidType,
        Token::LeftBrace,
        Token::Const,
        Token::Identifier("moji".to_string()),
        Token::Colon,
        Token::StringType,
        Token::Assign,
        Token::StringLiteral("Hello World by Kururi!".to_string()),
        Token::Identifier("output".to_string()),
        Token::LeftParen,
        Token::Identifier("moji".to_string()),
        Token::RightParen,
        Token::RightBrace,
    ];

    for expected in expected_tokens.iter() {
        assert!(tokens.contains(expected), "Missing token: {:?}", expected);
    }

    println!("Tokenized {} tokens:", tokens.len());
    for token in &tokens {
        println!("  {:?}", token);
    }
}

#[test]
fn test_tokenize_escapes_decode() {
    let mut lexer = Lexer::new();
    let result = lexer.tokenize("\"a\\n\\t\\r\\\\\\\"b\"");
    assert!(result.is_ok());
    let tokens = result.unwrap();
    assert_eq!(tokens[0], Token::StringLiteral("a\n\t\r\\\"b".to_string()));
    assert_eq!(tokens[1], Token::Eof);
}

#[test]
fn test_tokenize_invalid_escape() {
    let mut lexer = Lexer::new();
    let result = lexer.tokenize("\"a\\qb\"");
    match result {
        Err(kururi_compiler::error::CompilerError::LexError(msg)) => {
            assert_eq!(msg, "Invalid escape sequence: \\q");
        }
        other => panic!("expected a lexical diagnostic, got {:?}", other),
    }
}

#[test]
fn test_tokenize_unterminated_string() {
    let mut lexer = Lexer::new();
    let result = lexer.tokenize("\"abc");
    match result {
        Err(kururi_compiler::error::CompilerError::LexError(msg)) => {
            assert_eq!(msg, "Unterminated string literal");
        }
        other => panic!("expected a lexical diagnostic, got {:?}", other),
    }
}

#[test]
fn test_tokenize_unexpected_character() {
    let mut lexer = Lexer::new();
    let result = lexer.tokenize("let a = 1 ? 2");
    match result {
        Err(kururi_compiler::error::CompilerError::LexError(msg)) => {
            assert_eq!(msg, "Unexpected character: ?");
        }
        other => panic!("expected a lexical diagnostic, got {:?}", other),
    }
}

#[test]
fn test_tokenize_lone_ampersand() {
    let mut lexer = Lexer::new();
    let result = lexer.tokenize("a & b");
    match result {
        Err(kururi_compiler::error::CompilerError::LexError(msg)) => {
            assert_eq!(msg, "Unexpected character: &");
        }
        other => panic!("expected a lexical diagnostic, got {:?}", other),
    }
}

#[test]
fn test_tokenize_invalid_number() {
    let mut lexer = Lexer::new();
    let result = lexer.tokenize("1.2.3");
    match result {
        Err(kururi_compiler::error::CompilerError::LexError(msg)) => {
            assert_eq!(msg, "Invalid number format: 1.2.3");
        }
        other => panic!("expected a lexical diagnostic, got {:?}", other),
    }
}

#[test]
fn test_tokenize_number_canonical_forms() {
    let mut lexer = Lexer::new();
    let tokens = lexer.tokenize("42.0 007 1.50 0.0 5.").unwrap();
    assert_eq!(tokens[0], Token::NumberLiteral("42".to_string()));
    assert_eq!(tokens[1], Token::NumberLiteral("7".to_string()));
    assert_eq!(tokens[2], Token::NumberLiteral("1.5".to_string()));
    assert_eq!(tokens[3], Token::NumberLiteral("0".to_string()));
    assert_eq!(tokens[4], Token::NumberLiteral("5".to_string()));
    assert_eq!(tokens[5], Token::Eof);
}

#[test]
fn test_tokenize_two_char_operators() {
    let mut lexer = Lexer::new();
    let tokens = lexer.tokenize("== != <= >= && || = < > !").unwrap();
    assert_eq!(
        tokens,
        vec![
            Token::Equal,
            Token::NotEqual,
            Token::LessThanOrEqual,
            Token::GreaterThanOrEqual,
            Token::And,
            Token::Or,
            Token::Assign,
            Token::LessThan,
            Token::GreaterThan,
            Token::Not,
            Token::Eof,
        ]
    );
}

#[test]
fn test_tokenize_same_input_twice() {
    let mut lexer = Lexer::new();
    let first = lexer.tokenize("let x: number = 1 + 2").unwrap();
    let second = lexer.tokenize("let x: number = 1 + 2").unwrap();
    assert_eq!(first, second);
}

#[test]
fn test_keyword_or_identifier_coverage() {
    let reserved = [
        ("const", Token::Const),
        ("let", Token::Let),
        ("function", Token::Function),
        ("class", Token::Class),
        ("public", Token::Public),
        ("if", Token::If),
        ("elseif", Token::Elseif),
        ("else", Token::Else),
        ("while", Token::While),
        ("for", Token::For),
        ("foreach", Token::Foreach),
        ("in", Token::In),
        ("return", Token::Return),
        ("new", Token::New),
        ("true", Token::True),
        ("false", Token::False),
        ("string", Token::StringType),
        ("number", Token::NumberType),
        ("void", Token::VoidType),
    ];
    for (word, expected) in reserved.iter() {
        assert_eq!(Token::keyword_or_identifier(word), *expected);
    }
    assert_eq!(
        Token::keyword_or_identifier("letter"),
        Token::Identifier("letter".to_string())
    );
}

#[test]
fn test_token_as_str() {
    assert_eq!(Token::Const.as_str(), "const");
    assert_eq!(Token::Plus.as_str(), "+");
    assert_eq!(Token::Eof.as_str(), "EOF");
    assert_eq!(Token::Identifier("x".to_string()).as_str(), "");
}

#[test]
fn test_tokenize_strings_splits_on_whitespace() {
    let lexer = Lexer::new();
    let words = lexer.tokenize_strings("alpha  beta\n\tgamma").unwrap();
    assert_eq!(words, vec!["alpha".to_string(), "beta".to_string(), "gamma".to_string()]);
}
