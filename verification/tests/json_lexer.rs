use exercises::json::errors::LexError;
use exercises::json::lexer::Tokenizer;
use exercises::json::token::Token;

#[test]
fn test_tokenize_basic_json() {
    let input = r#"{
                "name": "Alice",
                "age": 30
            }"#;

    let mut tokenizer = Tokenizer::new(input);
    let tokens = tokenizer.tokenize().unwrap();

    let expected_tokens = vec![
        Token::LeftBrace,
        Token::String("name".to_string()),
        Token::Colon,
        Token::String("Alice".to_string()),
        Token::Comma,
        Token::String("age".to_string()),
        Token::Colon,
        Token::Number(30.to_string()),
        Token::RightBrace,
    ];

    assert_eq!(tokens, expected_tokens);
}

#[test]
fn test_tokenize_array_json() {
    let input = r#"[1, 2, 3, 4]"#;

    let mut tokenizer = Tokenizer::new(input);
    let tokens = tokenizer.tokenize().unwrap();

    let expected_tokens = vec![
        Token::LeftBracket,
        Token::Number(1.to_string()),
        Token::Comma,
        Token::Number(2.to_string()),
        Token::Comma,
        Token::Number(3.to_string()),
        Token::Comma,
        Token::Number(4.to_string()),
        Token::RightBracket,
    ];

    assert_eq!(tokens, expected_tokens);
}

#[test]
fn test_tokenize_string_with_escapes() {
    let input = r#""Hello, \"world\"!""#;

    let mut tokenizer = Tokenizer::new(input);
    let tokens = tokenizer.tokenize().unwrap();

    let expected_tokens = vec![Token::String("Hello, \"world\"!".to_string())];

    assert_eq!(tokens, expected_tokens);
}

#[test]
fn test_tokenize_boolean_and_null() {
    let input = r#"true, false, null"#;

    let mut tokenizer = Tokenizer::new(input);
    let tokens = tokenizer.tokenize().unwrap();

    let expected_tokens = vec![
        Token::True,
        Token::Comma,
        Token::False,
        Token::Comma,
        Token::Null,
    ];

    assert_eq!(tokens, expected_tokens);
}

#[test]
fn test_tokenize_invalid_input() {
    let input = r#"{ "name": "Alice", "age": "30""#;

    let mut tokenizer = Tokenizer::new(input);
    let result = tokenizer.tokenize();

    assert!(result.is_ok(), "Tokenizer does not check syntax error!");
}

#[test]
fn test_tokenize_number_with_exponent() {
    let input = r#"{
                "value": 3.14e10
            }"#;

    let mut tokenizer = Tokenizer::new(input);
    let tokens = tokenizer.tokenize().unwrap();

    let expected_tokens = vec![
        Token::LeftBrace,
        Token::String("value".to_string()),
        Token::Colon,
        Token::Number("3.14e10".to_string()),
        Token::RightBrace,
    ];

    assert_eq!(tokens, expected_tokens);
}

#[test]
fn test_tokenize_empty_object() {
    let input = r#"{}"#;

    let mut tokenizer = Tokenizer::new(input);
    let tokens = tokenizer.tokenize().unwrap();

    let expected_tokens = vec![Token::LeftBrace, Token::RightBrace];

    assert_eq!(tokens, expected_tokens);
}

#[test]
fn test_tokenize_empty_array() {
    let input = r#"[]"#;

    let mut tokenizer = Tokenizer::new(input);
    let tokens = tokenizer.tokenize().unwrap();

    let expected_tokens = vec![Token::LeftBracket, Token::RightBracket];

    assert_eq!(tokens, expected_tokens);
}

#[test]
fn test_tokenize_unterminated_string() {
    let mut tokenizer = Tokenizer::new(r#""never closed"#);
    assert_eq!(tokenizer.tokenize(), Err(LexError::UnterminatedString));
}

#[test]
fn test_tokenize_trailing_backslash() {
    let mut tokenizer = Tokenizer::new(r#""oops\"#);
    assert_eq!(tokenizer.tokenize(), Err(LexError::UnterminatedString));
}

#[test]
fn test_tokenize_invalid_escape() {
    let mut tokenizer = Tokenizer::new(r#""bad \q escape""#);
    assert_eq!(tokenizer.tokenize(), Err(LexError::InvalidEscape('q')));
}

#[test]
fn test_tokenize_malformed_keyword() {
    let mut tokenizer = Tokenizer::new("trua");
    assert!(matches!(
        tokenizer.tokenize(),
        Err(LexError::MalformedKeyword(_))
    ));
}

#[test]
fn test_tokenize_unexpected_character() {
    let mut tokenizer = Tokenizer::new("{ @ }");
    assert_eq!(tokenizer.tokenize(), Err(LexError::UnexpectedChar('@')));
}

#[test]
fn test_tokenize_all_escapes() {
    let mut tokenizer = Tokenizer::new(r#""\"\\\/\b\f\n\r\t""#);
    let tokens = tokenizer.tokenize().unwrap();
    assert_eq!(
        tokens,
        vec![Token::String("\"\\/\u{0008}\u{000C}\n\r\t".to_string())]
    );
}

#[test]
fn test_tokenize_negative_and_exponent_numbers() {
    let mut tokenizer = Tokenizer::new("-12 1.5 2e-3 7E+4");
    let tokens = tokenizer.tokenize().unwrap();
    assert_eq!(
        tokens,
        vec![
            Token::Number("-12".to_string()),
            Token::Number("1.5".to_string()),
            Token::Number("2e-3".to_string()),
            Token::Number("7E+4".to_string()),
        ]
    );
}
