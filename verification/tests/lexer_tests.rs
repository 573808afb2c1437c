use jclang::lexer::{tokenize, LexError, Token, TokenType};

fn lex(src: &str) -> Vec<Token> {
    match tokenize(src.to_string()) {
        Ok(v) => v,
        Err(e) => panic!("unexpected lexer error {:?}", e),
    }
}

fn shape(tokens: &[Token]) -> Vec<(TokenType, String, u32)> {
    tokens.iter().map(|t| (t.kind, t.value.clone(), t.line)).collect()
}

#[test]
fn tokenize_declaration_statement() {
    let tokens = lex("game a = 1;");
    assert_eq!(
        shape(&tokens),
        vec![
            (TokenType::Identifier, "game".to_string(), 1),
            (TokenType::Identifier, "a".to_string(), 1),
            (TokenType::Symbol, "=".to_string(), 1),
            (TokenType::Number, "1".to_string(), 1),
            (TokenType::Symbol, ";".to_string(), 1),
        ]
    );
}

#[test]
fn tokenize_empty_text() {
    assert_eq!(lex("").len(), 0);
    assert_eq!(lex("  \n\t \r\n").len(), 0);
}

#[test]
fn tokenize_string_keeps_escaped_quote() {
    let tokens = lex("\"a\\\"b\" x");
    assert_eq!(
        shape(&tokens),
        vec![
            (TokenType::String, "a\\\"b".to_string(), 1),
            (TokenType::Identifier, "x".to_string(), 1),
        ]
    );
}

#[test]
fn tokenize_unterminated_string_runs_to_end() {
    let tokens = lex("\"abc");
    assert_eq!(shape(&tokens), vec![(TokenType::String, "abc".to_string(), 1)]);
}

#[test]
fn tokenize_backquoted_name() {
    let tokens = lex("g`my var`");
    assert_eq!(
        shape(&tokens),
        vec![
            (TokenType::Identifier, "g".to_string(), 1),
            (TokenType::FString, "my var".to_string(), 1),
        ]
    );
}

#[test]
fn tokenize_non_ascii_text_inside_strings() {
    let tokens = lex("\"привет\";");
    assert_eq!(
        shape(&tokens),
        vec![
            (TokenType::String, "привет".to_string(), 1),
            (TokenType::Symbol, ";".to_string(), 1),
        ]
    );
}

#[test]
fn tokenize_decimal_numbers() {
    let tokens = lex("1.5; 2.; 30 ;");
    assert_eq!(
        shape(&tokens),
        vec![
            (TokenType::Number, "1.5".to_string(), 1),
            (TokenType::Symbol, ";".to_string(), 1),
            (TokenType::Number, "2.".to_string(), 1),
            (TokenType::Symbol, ";".to_string(), 1),
            (TokenType::Number, "30".to_string(), 1),
            (TokenType::Symbol, ";".to_string(), 1),
        ]
    );
}

#[test]
fn tokenize_number_glued_to_letters() {
    let tokens = lex("12ab;");
    assert_eq!(
        shape(&tokens),
        vec![
            (TokenType::Number, "12".to_string(), 1),
            (TokenType::Identifier, "ab".to_string(), 1),
            (TokenType::Symbol, ";".to_string(), 1),
        ]
    );
}

#[test]
fn tokenize_number_at_end_of_input() {
    assert_eq!(tokenize("x = 12".to_string()).unwrap_err(), LexError::NumberAtEndOfInput { line: 1 });
    assert_eq!(tokenize("\n\n7".to_string()).unwrap_err(), LexError::NumberAtEndOfInput { line: 3 });
}

#[test]
fn tokenize_double_colon_and_symbols() {
    let tokens = lex("player::message([a, b]);");
    let values: Vec<String> = tokens.iter().map(|t| t.value.clone()).collect();
    assert_eq!(values, vec!["player", "::", "message", "(", "[", "a", ",", "b", "]", ")", ";"]);
    assert_eq!(tokens[1].kind, TokenType::Symbol);
}

#[test]
fn tokenize_all_single_symbols() {
    let tokens = lex(";{}()[]<>,.=!");
    assert_eq!(tokens.len(), 13);
    assert!(tokens.iter().all(|t| t.kind == TokenType::Symbol && t.value.len() == 1));
}

#[test]
fn tokenize_skips_comments() {
    let tokens = lex("a // comment ; { }\nb");
    assert_eq!(
        shape(&tokens),
        vec![
            (TokenType::Identifier, "a".to_string(), 1),
            (TokenType::Identifier, "b".to_string(), 2),
        ]
    );
}

#[test]
fn tokenize_counts_lines() {
    let tokens = lex("a\n\nb\r\n  c");
    assert_eq!(
        shape(&tokens),
        vec![
            (TokenType::Identifier, "a".to_string(), 1),
            (TokenType::Identifier, "b".to_string(), 3),
            (TokenType::Identifier, "c".to_string(), 4),
        ]
    );
}

#[test]
fn tokenize_line_feeds_inside_strings_are_not_counted() {
    let tokens = lex("\"a\nb\" c");
    assert_eq!(tokens[0].value, "a\nb");
    assert_eq!(tokens[1].line, 1);
}

#[test]
fn tokenize_unknown_character() {
    assert_eq!(
        tokenize("a $ b".to_string()).unwrap_err(),
        LexError::UnknownCharacter { character: '$', line: 1 }
    );
    assert_eq!(
        tokenize("a\n:b".to_string()).unwrap_err(),
        LexError::UnknownCharacter { character: ':', line: 2 }
    );
    assert_eq!(
        tokenize("a / b".to_string()).unwrap_err(),
        LexError::UnknownCharacter { character: '/', line: 1 }
    );
    assert_eq!(
        tokenize("é".to_string()).unwrap_err(),
        LexError::UnknownCharacter { character: 'é', line: 1 }
    );
}

#[test]
fn tokenize_token_lines_never_go_down() {
    let src = "event<player_join> {\n  player::message([\"hi\", `x`]);\n\n  // note\n  game a;\n}\n";
    let tokens = lex(src);
    assert!(tokens.iter().all(|t| t.line >= 1));
    assert!(tokens.windows(2).all(|w| w[0].line <= w[1].line));
    assert_eq!(tokens.first().unwrap().line, 1);
    assert_eq!(tokens.last().unwrap().line, 6);
}

#[test]
fn tokenize_inverted_condition() {
    let tokens = lex("player::has_privilege!(\"WHITELISTED\") {}");
    assert_eq!(
        shape(&tokens),
        vec![
            (TokenType::Identifier, "player".to_string(), 1),
            (TokenType::Symbol, "::".to_string(), 1),
            (TokenType::Identifier, "has_privilege".to_string(), 1),
            (TokenType::Symbol, "!".to_string(), 1),
            (TokenType::Symbol, "(".to_string(), 1),
            (TokenType::String, "WHITELISTED".to_string(), 1),
            (TokenType::Symbol, ")".to_string(), 1),
            (TokenType::Symbol, "{".to_string(), 1),
            (TokenType::Symbol, "}".to_string(), 1),
        ]
    );
}

#[test]
fn tokenize_leading_blank_changes_nothing() {
    let src = "game a = 1;\nplayer::message(\"x\");";
    let plain = shape(&lex(src));
    assert_eq!(shape(&lex(&format!(" {}", src))), plain);
    assert_eq!(shape(&lex(&format!("\t{}", src))), plain);
    assert_eq!(tokenize(" a $".to_string()).unwrap_err(), tokenize("a $".to_string()).unwrap_err());
}

#[test]
fn tokenize_leading_newline_moves_lines_down() {
    let src = "game a = 1;\nplayer::message(\"x\");";
    let moved: Vec<(TokenType, String, u32)> =
        shape(&lex(src)).into_iter().map(|(k, v, l)| (k, v, l + 1)).collect();
    assert_eq!(shape(&lex(&format!("\n{}", src))), moved);
    assert_eq!(
        tokenize("\na\n$".to_string()).unwrap_err(),
        LexError::UnknownCharacter { character: '$', line: 3 }
    );
}
