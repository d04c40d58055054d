use fns::frontend::token::{Token, TokenKind};
use fns::frontend::tokenizer::tokenize;
use fns::frontend::utils::TextSpan;

#[test]
fn test_tokenize() {
    let source_code = "let number = 2.5";
    let expected_tokens = vec![
        Token::new(TokenKind::Let, "let".to_string(), TextSpan::new(0, 3)),
        Token::new(
            TokenKind::Identifier,
            "number".to_string(),
            TextSpan::new(4, 10),
        ),
        Token::new(TokenKind::Equal, "=".to_string(), TextSpan::new(11, 12)),
        Token::new(TokenKind::Number, "2.5".to_string(), TextSpan::new(13, 16)),
        Token::new(TokenKind::Eof, "\0".to_string(), TextSpan::new(16, 17)),
    ];
    let tokens = tokenize(source_code).unwrap();
    assert_eq!(tokens, expected_tokens);
    for i in 0..expected_tokens.len() - 1 {
        let token = &tokens[i];
        assert_eq!(
            token.lexeme,
            source_code[token.text_span.starting_index..token.text_span.ending_index]
                .to_string()
        );
    }
}

#[test]
fn test_tokenize_with_keywords() {
    let source_code = "let const true false none";
    let expected_tokens = vec![
        Token::new(TokenKind::Let, "let".to_string(), TextSpan::new(0, 3)),
        Token::new(TokenKind::Const, "const".to_string(), TextSpan::new(4, 9)),
        Token::new(TokenKind::True, "true".to_string(), TextSpan::new(10, 14)),
        Token::new(TokenKind::False, "false".to_string(), TextSpan::new(15, 20)),
        Token::new(TokenKind::NoneLiteral, "none".to_string(), TextSpan::new(21, 25)),
        Token::new(TokenKind::Eof, "\0".to_string(), TextSpan::new(25, 26)),
    ];
    let tokens = tokenize(source_code).unwrap();
    assert_eq!(tokens, expected_tokens);
    for i in 0..expected_tokens.len() - 1 {
        let token = &tokens[i];
        assert_eq!(
            token.lexeme,
            source_code[token.text_span.starting_index..token.text_span.ending_index]
                .to_string()
        );
    }
}

#[test]
fn test_tokenize_with_string_token() {
    let source_code = "\"hello, world!\"";
    let expected_tokens = vec![
        Token::new(
            TokenKind::String,
            "hello, world!".to_string(),
            TextSpan::new(0, 15),
        ),
        Token::new(TokenKind::Eof, "\0".to_string(), TextSpan::new(15, 16)),
    ];
    let tokens = tokenize(source_code).unwrap();
    assert_eq!(tokens, expected_tokens);
    for i in 0..expected_tokens.len() - 1 {
        let token = &tokens[i];
        assert_eq!(
            token.lexeme,
            source_code[token.text_span.starting_index + 1..token.text_span.ending_index - 1]
                .to_string()
        );
    }
}

#[test]
fn test_tokenize_with_single_and_double_character_tokens() {
    let source_code = "=(+-*/)!&&&|||><>=<===!={}:,.";
    let expected_tokens = vec![
        Token::new(TokenKind::Equal, "=".to_string(), TextSpan::new(0, 1)),
        Token::new(TokenKind::OpenParen, "(".to_string(), TextSpan::new(1, 2)),
        Token::new(TokenKind::Plus, "+".to_string(), TextSpan::new(2, 3)),
        Token::new(TokenKind::Minus, "-".to_string(), TextSpan::new(3, 4)),
        Token::new(TokenKind::Asterisk, "*".to_string(), TextSpan::new(4, 5)),
        Token::new(TokenKind::Slash, "/".to_string(), TextSpan::new(5, 6)),
        Token::new(TokenKind::CloseParen, ")".to_string(), TextSpan::new(6, 7)),
        Token::new(TokenKind::Bang, "!".to_string(), TextSpan::new(7, 8)),
        Token::new(
            TokenKind::DoubleAmpersand,
            "&&".to_string(),
            TextSpan::new(8, 10),
        ),
        Token::new(TokenKind::Ampersand, "&".to_string(), TextSpan::new(10, 11)),
        Token::new(
            TokenKind::DoublePipe,
            "||".to_string(),
            TextSpan::new(11, 13),
        ),
        Token::new(TokenKind::Pipe, "|".to_string(), TextSpan::new(13, 14)),
        Token::new(TokenKind::Greater, ">".to_string(), TextSpan::new(14, 15)),
        Token::new(TokenKind::Lesser, "<".to_string(), TextSpan::new(15, 16)),
        Token::new(
            TokenKind::GreaterOrEqual,
            ">=".to_string(),
            TextSpan::new(16, 18),
        ),
        Token::new(
            TokenKind::LesserOrEqual,
            "<=".to_string(),
            TextSpan::new(18, 20),
        ),
        Token::new(
            TokenKind::DoubleEqual,
            "==".to_string(),
            TextSpan::new(20, 22),
        ),
        Token::new(
            TokenKind::BangEqual,
            "!=".to_string(),
            TextSpan::new(22, 24),
        ),
        Token::new(TokenKind::OpenBrace, "{".to_string(), TextSpan::new(24, 25)),
        Token::new(
            TokenKind::CloseBrace,
            "}".to_string(),
            TextSpan::new(25, 26),
        ),
        Token::new(TokenKind::Colon, ":".to_string(), TextSpan::new(26, 27)),
        Token::new(TokenKind::Comma, ",".to_string(), TextSpan::new(27, 28)),
        Token::new(TokenKind::Dot, ".".to_string(), TextSpan::new(28, 29)),
        Token::new(TokenKind::Eof, "\0".to_string(), TextSpan::new(29, 30)),
    ];
    let tokens = tokenize(source_code).unwrap();
    assert_eq!(tokens, expected_tokens);
    for i in 0..expected_tokens.len() - 1 {
        let token = &tokens[i];
        assert_eq!(
            token.lexeme,
            source_code[token.text_span.starting_index..token.text_span.ending_index]
                .to_string()
        );
    }
}

#[test]
fn test_tokenize_with_empty_input() {
    let source_code = "";
    let expected_tokens = vec![Token::new(
        TokenKind::Eof,
        "\0".to_string(),
        TextSpan::new(0, 1),
    )];
    let tokens = tokenize(source_code).unwrap();
    assert_eq!(tokens, expected_tokens);
    for i in 0..expected_tokens.len() - 1 {
        let token = &tokens[i];
        assert_eq!(
            token.lexeme,
            source_code[token.text_span.starting_index..token.text_span.ending_index]
                .to_string()
        );
    }
}

#[test]
fn test_tokenize_with_spaces() {
    let source_code = "  \t \n \r";
    let expected_tokens = vec![Token::new(
        TokenKind::Eof,
        "\0".to_string(),
        TextSpan::new(7, 8),
    )];
    let tokens = tokenize(source_code).unwrap();
    assert_eq!(tokens, expected_tokens);
    for i in 0..expected_tokens.len() - 1 {
        let token = &tokens[i];
        assert_eq!(
            token.lexeme,
            source_code[token.text_span.starting_index..token.text_span.ending_index]
                .to_string()
        );
    }
}

#[test]
fn test_tokenize_with_comment() {
    let source_code = "// this is a comment";
    let expected_tokens = vec![Token::new(
        TokenKind::Eof,
        "\0".to_string(),
        TextSpan::new(20, 21),
    )];
    let tokens = tokenize(source_code).unwrap();
    assert_eq!(tokens, expected_tokens);
    for i in 0..expected_tokens.len() - 1 {
        let token = &tokens[i];
        assert_eq!(
            token.lexeme,
            source_code[token.text_span.starting_index..token.text_span.ending_index]
                .to_string()
        );
    }
}
