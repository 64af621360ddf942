use rlox::lox::ErrorKind;
use rlox::lox::Lox;
use rlox::scanner::Scanner;
use rlox::token::Literal;
use rlox::token::Token;
use rlox::token::TokenType;

fn scan_all(src: &str) -> (Vec<Token>, Lox) {
    let scanner = Scanner::new(src.as_bytes().to_vec());
    let mut lox = Lox::new();
    let tokens = scanner.scan_tokens(&mut lox);
    (tokens, lox)
}

fn number_value(t: &Token) -> f64 {
    match &t.literal {
        Literal::Number(text) => String::from_utf8(text.clone()).unwrap().parse().unwrap(),
        other => panic!("expected a numeric payload, got {:?}", other),
    }
}

#[test]
fn test_scan_single_char_and_double_tokens() {
    let input = "(){},.-+;*
        < > = /
        <= >= == //
        ";

    let exp = vec![
        Token::new(TokenType::LPAREN, b"(".to_vec(), 1),
        Token::new(TokenType::RPAREN, b")".to_vec(), 1),
        Token::new(TokenType::LBRACE, b"{".to_vec(), 1),
        Token::new(TokenType::RBRACE, b"}".to_vec(), 1),
        Token::new(TokenType::COMMA, b",".to_vec(), 1),
        Token::new(TokenType::DOT, b".".to_vec(), 1),
        Token::new(TokenType::MINUS, b"-".to_vec(), 1),
        Token::new(TokenType::PLUS, b"+".to_vec(), 1),
        Token::new(TokenType::SEMICOLON, b";".to_vec(), 1),
        Token::new(TokenType::STAR, b"*".to_vec(), 1),
        Token::new(TokenType::LT, b"<".to_vec(), 2),
        Token::new(TokenType::GT, b">".to_vec(), 2),
        Token::new(TokenType::EQ, b"=".to_vec(), 2),
        Token::new(TokenType::SLASH, b"/".to_vec(), 2),
        Token::new(TokenType::LTEQ, b"<=".to_vec(), 3),
        Token::new(TokenType::GTEQ, b">=".to_vec(), 3),
        Token::new(TokenType::EQEQ, b"==".to_vec(), 3),
        // The comment stops short of the newline, so the newline after it
        // is scanned and the end-of-input marker sits on line 4.
        Token::new(TokenType::EOF, b"".to_vec(), 4),
    ];

    let (tokens, _) = scan_all(input);
    for (i, e) in exp.into_iter().enumerate() {
        let t = &tokens[i];
        assert_eq!(e.token_type, t.token_type);
        assert_eq!(e.lexeme, t.lexeme);
        assert_eq!(e.line, t.line);
    }
}

#[test]
fn test_line_numbers() {
    let input = "
        !
        <
        >
        ";

    let exp = vec![
        Token::new(TokenType::BANG, b"!".to_vec(), 2),
        Token::new(TokenType::LT, b"<".to_vec(), 3),
        Token::new(TokenType::GT, b">".to_vec(), 4),
    ];

    let (tokens, _) = scan_all(input);
    for (i, e) in exp.into_iter().enumerate() {
        assert_eq!(e.line, tokens[i].line);
    }
}

#[test]
fn test_strings() {
    let input = r#"
            "this is a string"
        "#;

    let (tokens, _) = scan_all(input);
    let t = &tokens[0];
    assert_eq!(t.token_type, TokenType::STRING);
    assert_eq!(t.lexeme, b"\"this is a string\"".to_vec());
    assert_eq!(t.literal, Literal::Text(b"this is a string".to_vec()));
}

#[test]
fn test_numbers() {
    let input = "1
        34 69 420
        6.9
        42.0
        ";

    let exp: Vec<(&[u8], u64, f64)> = vec![
        (b"1", 1, 1.0),
        (b"34", 2, 34.0),
        (b"69", 2, 69.0),
        (b"420", 2, 420.0),
        (b"6.9", 3, 6.9),
        (b"42.0", 4, 42.0),
    ];

    let (tokens, _) = scan_all(input);
    for (i, (lexeme, line, value)) in exp.into_iter().enumerate() {
        let t = &tokens[i];
        assert_eq!(t.token_type, TokenType::NUM);
        assert_eq!(t.lexeme, lexeme.to_vec());
        assert_eq!(t.line, line);
        assert_eq!(number_value(t), value);
    }
}

#[test]
fn test_idents() {
    let input = "
        num num1
        ";

    let exp = vec![
        Token::new_literal(TokenType::IDENT, b"num".to_vec(), Literal::Text(b"num".to_vec()), 2),
        Token::new_literal(TokenType::IDENT, b"num1".to_vec(), Literal::Text(b"num1".to_vec()), 2),
    ];

    let (tokens, _) = scan_all(input);
    for (i, e) in exp.into_iter().enumerate() {
        let t = &tokens[i];
        assert_eq!(e.token_type, TokenType::IDENT);
        assert_eq!(e.lexeme, t.lexeme);
        assert_eq!(e.line, t.line);
        assert_eq!(e.literal, t.literal);
    }
}

#[test]
fn test_keywords() {
    let input = "and class else false for fun if nil or print return super this true var while";

    let exp = vec![
        Token::new(TokenType::AND, b"and".to_vec(), 1),
        Token::new(TokenType::CLASS, b"class".to_vec(), 1),
        Token::new(TokenType::ELSE, b"else".to_vec(), 1),
        Token::new(TokenType::FALSE, b"false".to_vec(), 1),
        Token::new(TokenType::FOR, b"for".to_vec(), 1),
        Token::new(TokenType::FUN, b"fun".to_vec(), 1),
        Token::new(TokenType::IF, b"if".to_vec(), 1),
        Token::new(TokenType::NIL, b"nil".to_vec(), 1),
        Token::new(TokenType::OR, b"or".to_vec(), 1),
        Token::new(TokenType::PRINT, b"print".to_vec(), 1),
        Token::new(TokenType::RETURN, b"return".to_vec(), 1),
        Token::new(TokenType::SUPER, b"super".to_vec(), 1),
        Token::new(TokenType::THIS, b"this".to_vec(), 1),
        Token::new(TokenType::TRUE, b"true".to_vec(), 1),
        Token::new(TokenType::VAR, b"var".to_vec(), 1),
        Token::new(TokenType::WHILE, b"while".to_vec(), 1),
        Token::new(TokenType::EOF, b"".to_vec(), 1),
    ];

    let (tokens, _) = scan_all(input);
    for (i, e) in exp.into_iter().enumerate() {
        let t = &tokens[i];
        assert_eq!(e.token_type, t.token_type);
        assert_eq!(e.lexeme, t.lexeme);
        assert_eq!(e.line, t.line);
    }
}

#[test]
fn test_empty_input() {
    let (tokens, lox) = scan_all("");
    assert_eq!(tokens.len(), 1);
    assert_eq!(tokens[0].token_type, TokenType::EOF);
    assert_eq!(tokens[0].lexeme, Vec::<u8>::new());
    assert_eq!(tokens[0].literal, Literal::Absent);
    assert_eq!(tokens[0].line, 1);
    assert!(!lox.had_error);
    assert!(lox.diagnostics.is_empty());
}

#[test]
fn test_punctuation_separated_by_whitespace() {
    let (tokens, lox) = scan_all("( ) {\t} , . - + ; *");
    let expected_types =
        vec![TokenType::LPAREN, TokenType::RPAREN, TokenType::LBRACE, TokenType::RBRACE, TokenType::COMMA, TokenType::DOT, TokenType::MINUS, TokenType::PLUS, TokenType::SEMICOLON, TokenType::STAR, TokenType::EOF];
    assert_eq!(tokens.len(), expected_types.len());
    for (i, ty) in expected_types.into_iter().enumerate() {
        assert_eq!(tokens[i].token_type, ty);
        assert_eq!(tokens[i].literal, Literal::Absent);
    }
    assert!(!lox.had_error);
}

#[test]
fn test_operator_followed_by_other_character() {
    let (tokens, _) = scan_all("!3");
    assert_eq!(tokens[0].token_type, TokenType::BANG);
    assert_eq!(tokens[0].lexeme, b"!".to_vec());
    assert_eq!(tokens[1].token_type, TokenType::NUM);
    assert_eq!(tokens[1].lexeme, b"3".to_vec());
    assert_eq!(tokens[2].token_type, TokenType::EOF);

    let (tokens, _) = scan_all("==");
    assert_eq!(tokens[0].token_type, TokenType::EQEQ);
    assert_eq!(tokens[0].lexeme, b"==".to_vec());
    assert_eq!(tokens[1].token_type, TokenType::EOF);
}

#[test]
fn test_trailing_dot_left_for_next_token() {
    let (tokens, lox) = scan_all("1.");
    assert_eq!(tokens[0].token_type, TokenType::NUM);
    assert_eq!(tokens[0].lexeme, b"1".to_vec());
    assert_eq!(tokens[0].literal, Literal::Number(b"1".to_vec()));
    assert_eq!(tokens[1].token_type, TokenType::DOT);
    assert_eq!(tokens[1].lexeme, b".".to_vec());
    assert_eq!(tokens[2].token_type, TokenType::EOF);
    assert!(!lox.had_error);
}

#[test]
fn test_keyword_lookup_is_case_sensitive() {
    let (tokens, _) = scan_all("and And and1");
    assert_eq!(tokens[0].token_type, TokenType::AND);
    assert_eq!(tokens[0].literal, Literal::Absent);
    assert_eq!(tokens[1].token_type, TokenType::IDENT);
    assert_eq!(tokens[1].literal, Literal::Text(b"And".to_vec()));
    assert_eq!(tokens[2].token_type, TokenType::IDENT);
    assert_eq!(tokens[2].literal, Literal::Text(b"and1".to_vec()));
}

#[test]
fn test_unterminated_string_reports_once() {
    let (tokens, lox) = scan_all("\"abc");
    assert_eq!(tokens.len(), 1);
    assert_eq!(tokens[0].token_type, TokenType::EOF);
    assert!(lox.had_error);
    assert_eq!(lox.diagnostics.len(), 1);
    assert_eq!(lox.diagnostics[0].kind, ErrorKind::UnterminatedString);
    assert_eq!(lox.diagnostics[0].line, 1);
}

#[test]
fn test_unterminated_string_line_is_opening_quote() {
    let (tokens, lox) = scan_all("+\n\"ab\ncd");
    assert_eq!(tokens[0].token_type, TokenType::PLUS);
    assert_eq!(tokens[1].token_type, TokenType::EOF);
    // Newlines inside the unterminated literal still advance the counter.
    assert_eq!(tokens[1].line, 3);
    assert_eq!(lox.diagnostics.len(), 1);
    assert_eq!(lox.diagnostics[0].kind, ErrorKind::UnterminatedString);
    assert_eq!(lox.diagnostics[0].line, 2);
}

#[test]
fn test_string_spanning_lines_carries_opening_line() {
    let (tokens, lox) = scan_all("\"a\nb\"!");
    assert_eq!(tokens[0].token_type, TokenType::STRING);
    assert_eq!(tokens[0].line, 1);
    assert_eq!(tokens[0].lexeme, b"\"a\nb\"".to_vec());
    assert_eq!(tokens[0].literal, Literal::Text(b"a\nb".to_vec()));
    assert_eq!(tokens[1].token_type, TokenType::BANG);
    assert_eq!(tokens[1].line, 2);
    assert_eq!(tokens[2].token_type, TokenType::EOF);
    assert!(!lox.had_error);
}

#[test]
fn test_unexpected_character_reported_and_scan_continues() {
    let (tokens, lox) = scan_all("@(\n#)");
    assert_eq!(tokens[0].token_type, TokenType::LPAREN);
    assert_eq!(tokens[0].line, 1);
    assert_eq!(tokens[1].token_type, TokenType::RPAREN);
    assert_eq!(tokens[1].line, 2);
    assert_eq!(tokens[2].token_type, TokenType::EOF);
    assert!(lox.had_error);
    assert_eq!(lox.diagnostics.len(), 2);
    assert_eq!(lox.diagnostics[0].kind, ErrorKind::UnexpectedCharacter);
    assert_eq!(lox.diagnostics[0].line, 1);
    assert_eq!(lox.diagnostics[1].kind, ErrorKind::UnexpectedCharacter);
    assert_eq!(lox.diagnostics[1].line, 2);
}

#[test]
fn test_comment_runs_to_end_of_line_only() {
    let (tokens, lox) = scan_all("// a comment +*\n-");
    assert_eq!(tokens[0].token_type, TokenType::MINUS);
    assert_eq!(tokens[0].line, 2);
    assert_eq!(tokens[1].token_type, TokenType::EOF);
    assert!(!lox.had_error);
}

#[test]
fn test_comment_at_end_of_input_without_newline() {
    let (tokens, lox) = scan_all("+// trailing words");
    assert_eq!(tokens[0].token_type, TokenType::PLUS);
    assert_eq!(tokens[1].token_type, TokenType::EOF);
    assert_eq!(tokens.len(), 2);
    assert!(!lox.had_error);
}

#[test]
fn test_lone_slash_is_a_token() {
    let (tokens, _) = scan_all("/ /");
    assert_eq!(tokens[0].token_type, TokenType::SLASH);
    assert_eq!(tokens[1].token_type, TokenType::SLASH);
    assert_eq!(tokens[2].token_type, TokenType::EOF);
}

#[test]
fn test_number_values_are_exact() {
    let (tokens, _) = scan_all("42.0 6.9 0.5 1000000");
    assert_eq!(number_value(&tokens[0]), 42.0);
    assert_eq!(number_value(&tokens[1]), 6.9);
    assert_eq!(number_value(&tokens[2]), 0.5);
    assert_eq!(number_value(&tokens[3]), 1000000.0);
}

#[test]
fn test_keywords_helper_lookup() {
    assert_eq!(Scanner::keywords(&b"and".to_vec()), Some(TokenType::AND));
    assert_eq!(Scanner::keywords(&b"while".to_vec()), Some(TokenType::WHILE));
    assert_eq!(Scanner::keywords(&b"And".to_vec()), None);
    assert_eq!(Scanner::keywords(&b"ands".to_vec()), None);
    assert_eq!(Scanner::keywords(&b"".to_vec()), None);
}

#[test]
fn test_error_collector_accumulates_in_order() {
    let mut lox = Lox::new();
    assert!(!lox.had_error);
    lox.error(7, ErrorKind::UnexpectedCharacter);
    lox.error(9, ErrorKind::UnterminatedString);
    assert!(lox.had_error);
    assert_eq!(lox.diagnostics.len(), 2);
    assert_eq!(lox.diagnostics[0].line, 7);
    assert_eq!(lox.diagnostics[1].line, 9);
}
