use jclang::ast::{Expression, ExpressionBox, Statement, StatementBox};
use jclang::lexer::{tokenize, Token, TokenType};
use jclang::parser::{Context, ParseError, Parser};

fn parse_with_warnings(src: &str) -> (Result<Vec<StatementBox>, ParseError>, Vec<u32>) {
    let source = src.to_string();
    let file = "test.jc".to_string();
    let tokens = tokenize(source.clone()).expect("lexer error");
    let mut parser = Parser::new(tokens, &source, &file);
    let r = parser.parse_program();
    let w = parser.warnings().clone();
    (r, w)
}

fn parse(src: &str) -> Vec<StatementBox> {
    match parse_with_warnings(src).0 {
        Ok(v) => v,
        Err(e) => panic!("unexpected parse error {:?}", e),
    }
}

fn parse_err(src: &str) -> ParseError {
    match parse_with_warnings(src).0 {
        Ok(v) => panic!("expected a parse error, got {:?}", v),
        Err(e) => e,
    }
}

fn ident(e: &ExpressionBox) -> &str {
    match &e.content {
        Expression::Identifier(n) => n.as_str(),
        other => panic!("not an identifier: {:?}", other),
    }
}

fn number(e: &ExpressionBox) -> &str {
    match &e.content {
        Expression::NumberLiteral(n) => n.as_str(),
        other => panic!("not a number: {:?}", other),
    }
}

#[test]
fn parser_reads_global_declaration() {
    let stmts = parse("game a;");
    assert_eq!(stmts.len(), 1);
    assert_eq!(stmts[0].line, 1);
    match &stmts[0].content {
        Statement::VariableDefinition { scope, name, value } => {
            assert_eq!(scope, "game");
            assert_eq!(name, "a");
            assert!(value.is_none());
        },
        other => panic!("{:?}", other),
    }
}

#[test]
fn parser_reads_declaration_with_value_and_backquoted_name() {
    let stmts = parse("\nlocal `my var` = 5;");
    assert_eq!(stmts[0].line, 2);
    match &stmts[0].content {
        Statement::VariableDefinition { scope, name, value } => {
            assert_eq!(scope, "local");
            assert_eq!(name, "my var");
            assert_eq!(number(value.as_ref().unwrap()), "5");
        },
        other => panic!("{:?}", other),
    }
}

#[test]
fn parser_rejects_string_as_variable_name() {
    match parse_err("save \"x\";") {
        ParseError::ExpectedVariableName { got, line } => {
            assert_eq!(got, TokenType::String);
            assert_eq!(line, 1);
        },
        other => panic!("{:?}", other),
    }
}

#[test]
fn parser_reads_variable_set() {
    let stmts = parse("a = 5;");
    match &stmts[0].content {
        Statement::VariableSet { name, value } => {
            assert_eq!(name, "a");
            assert_eq!(number(value), "5");
        },
        other => panic!("{:?}", other),
    }
}

#[test]
fn parser_reads_function_process_and_event() {
    let stmts = parse("function f() { }\nprocess p(x) { game a; }\nevent<player_join> { f(); }");
    assert_eq!(stmts.len(), 3);
    match &stmts[0].content {
        Statement::FunctionDefinition { name, params, body } => {
            assert_eq!(name, "f");
            assert!(params.is_empty());
            assert!(body.is_empty());
        },
        other => panic!("{:?}", other),
    }
    match &stmts[1].content {
        Statement::ProcessDefinition { name, params, body } => {
            assert_eq!(name, "p");
            assert_eq!(params, &vec!["x".to_string()]);
            assert_eq!(body.len(), 1);
        },
        other => panic!("{:?}", other),
    }
    assert_eq!(stmts[1].line, 2);
    match &stmts[2].content {
        Statement::EventDefinition { event, body } => {
            assert_eq!(event, "player_join");
            assert_eq!(body.len(), 1);
            match &body[0].content {
                Statement::ExpressionStatement(e) => match &e.content {
                    Expression::FunctionCall { name, args } => {
                        assert_eq!(name, "f");
                        assert!(args.is_empty());
                    },
                    other => panic!("{:?}", other),
                },
                other => panic!("{:?}", other),
            }
        },
        other => panic!("{:?}", other),
    }
    assert_eq!(stmts[2].line, 3);
}

#[test]
fn parser_reads_parameters_separated_by_commas() {
    let stmts = parse("function f(a, b, c) { }");
    match &stmts[0].content {
        Statement::FunctionDefinition { name, params, body } => {
            assert_eq!(name, "f");
            assert_eq!(params, &vec!["a".to_string(), "b".to_string(), "c".to_string()]);
            assert!(body.is_empty());
        },
        other => panic!("{:?}", other),
    }
}

#[test]
fn parser_rejects_missing_parameter_after_comma() {
    match parse_err("function f(a, ;) { }") {
        ParseError::ExpectedKind { expected, got, context, line } => {
            assert_eq!(expected, TokenType::Identifier);
            assert_eq!(got, TokenType::Symbol);
            assert_eq!(context, Context::FunctionParameters);
            assert_eq!(line, 1);
        },
        other => panic!("{:?}", other),
    }
}

#[test]
fn parser_rejects_parameter_types() {
    let source = "function f(a : int) {}".to_string();
    let file = "t.jc".to_string();
    let words = ["function", "f", "(", "a", ":", "int", ")", "{", "}"];
    let tokens: Vec<Token> = words
        .iter()
        .map(|w| Token {
            kind: if w.chars().all(|c| c.is_ascii_alphanumeric()) {
                TokenType::Identifier
            } else {
                TokenType::Symbol
            },
            value: w.to_string(),
            line: 4,
        })
        .collect();
    let mut parser = Parser::new(tokens, &source, &file);
    match parser.parse_program() {
        Err(ParseError::ParameterTypes { line }) => assert_eq!(line, 4),
        other => panic!("{:?}", other),
    }
}

#[test]
fn parser_reads_method_call_with_named_arguments() {
    let stmts = parse("player::message(a, b = 1, c = 2);");
    match &stmts[0].content {
        Statement::ExpressionStatement(e) => match &e.content {
            Expression::MethodCall { object, method, args } => {
                assert_eq!(object, "player");
                assert_eq!(method, "message");
                assert_eq!(args.posargs.len(), 1);
                assert_eq!(ident(&args.posargs[0]), "a");
                assert_eq!(args.kwargs.len(), 2);
                assert_eq!(args.kwargs[0].0, "b");
                assert_eq!(number(&args.kwargs[0].1), "1");
                assert_eq!(args.kwargs[1].0, "c");
                assert_eq!(number(&args.kwargs[1].1), "2");
                assert!(args.handler.is_none());
            },
            other => panic!("{:?}", other),
        },
        other => panic!("{:?}", other),
    }
}

#[test]
fn parser_keeps_last_value_of_repeated_named_argument() {
    let stmts = parse("x::y(a = 1, b = 3, a = 2);");
    match &stmts[0].content {
        Statement::ExpressionStatement(e) => match &e.content {
            Expression::MethodCall { args, .. } => {
                assert_eq!(args.kwargs.len(), 2);
                assert_eq!(args.kwargs[0].0, "a");
                assert_eq!(number(&args.kwargs[0].1), "2");
                assert_eq!(args.kwargs[1].0, "b");
            },
            other => panic!("{:?}", other),
        },
        other => panic!("{:?}", other),
    }
}

#[test]
fn parser_rejects_named_argument_that_is_not_a_name() {
    match parse_err("x::y(1 = 2);") {
        ParseError::KwargNotIdentifier { line } => assert_eq!(line, 1),
        other => panic!("{:?}", other),
    }
}

#[test]
fn parser_rejects_handler_arrow() {
    match parse_err("x::y(() => { });") {
        ParseError::ExpectedValue { expected, got, context, line } => {
            assert_eq!(expected, "=>");
            assert_eq!(got, "=");
            assert_eq!(context, Context::Handler);
            assert_eq!(line, 1);
        },
        other => panic!("{:?}", other),
    }
}

#[test]
fn parser_reads_explicit_variables() {
    let stmts = parse("x::y(ln`a`, l`b`, g`c`, s`d`);");
    match &stmts[0].content {
        Statement::ExpressionStatement(e) => match &e.content {
            Expression::MethodCall { args, .. } => {
                let got: Vec<(String, String)> = args
                    .posargs
                    .iter()
                    .map(|a| match &a.content {
                        Expression::ExplicitVariable { scope, name } => (scope.clone(), name.clone()),
                        other => panic!("{:?}", other),
                    })
                    .collect();
                let want = vec![("line", "a"), ("local", "b"), ("game", "c"), ("save", "d")];
                let want: Vec<(String, String)> =
                    want.iter().map(|(s, n)| (s.to_string(), n.to_string())).collect();
                assert_eq!(got, want);
            },
            other => panic!("{:?}", other),
        },
        other => panic!("{:?}", other),
    }
}

#[test]
fn parser_rejects_unknown_variable_scope() {
    match parse_err("x::y(q`a`);") {
        ParseError::UnknownVariableScope { line } => assert_eq!(line, 1),
        other => panic!("{:?}", other),
    }
}

#[test]
fn parser_reads_var_declaration_in_default_scope() {
    let stmts = parse("var minimessage_test = m\"<red>hi\";\nvar x;");
    assert_eq!(stmts.len(), 2);
    match &stmts[0].content {
        Statement::VariableDefinition { scope, name, value } => {
            assert_eq!(scope, "default");
            assert_eq!(name, "minimessage_test");
            match &value.as_ref().unwrap().content {
                Expression::StringLiteral { parsing, text } => {
                    assert_eq!(parsing, "minimessage");
                    assert_eq!(text, "<red>hi");
                },
                other => panic!("{:?}", other),
            }
        },
        other => panic!("{:?}", other),
    }
    match &stmts[1].content {
        Statement::VariableDefinition { scope, name, value } => {
            assert_eq!(scope, "default");
            assert_eq!(name, "x");
            assert!(value.is_none());
        },
        other => panic!("{:?}", other),
    }
    assert_eq!(stmts[1].line, 2);
}

#[test]
fn parser_reads_string_literals_with_prefixes() {
    let stmts = parse("x::y(p\"a\", l\"b\", m\"<red>c\", j\"d\", \"e\");");
    match &stmts[0].content {
        Statement::ExpressionStatement(e) => match &e.content {
            Expression::MethodCall { args, .. } => {
                let got: Vec<(String, String)> = args
                    .posargs
                    .iter()
                    .map(|a| match &a.content {
                        Expression::StringLiteral { parsing, text } => (parsing.clone(), text.clone()),
                        other => panic!("{:?}", other),
                    })
                    .collect();
                let want = vec![
                    ("plain", "a"),
                    ("legacy", "b"),
                    ("minimessage", "<red>c"),
                    ("json", "d"),
                    ("legacy", "e"),
                ];
                let want: Vec<(String, String)> =
                    want.iter().map(|(s, n)| (s.to_string(), n.to_string())).collect();
                assert_eq!(got, want);
            },
            other => panic!("{:?}", other),
        },
        other => panic!("{:?}", other),
    }
}

#[test]
fn parser_rejects_unknown_text_parsing() {
    match parse_err("x::y(z\"a\");") {
        ParseError::UnknownTextParsing { line } => assert_eq!(line, 1),
        other => panic!("{:?}", other),
    }
}

#[test]
fn parser_reads_array_literals() {
    let stmts = parse("x::y([1, [2], \"a\"], []);");
    match &stmts[0].content {
        Statement::ExpressionStatement(e) => match &e.content {
            Expression::MethodCall { args, .. } => {
                assert_eq!(args.posargs.len(), 2);
                match &args.posargs[0].content {
                    Expression::ArrayLiteral(items) => {
                        assert_eq!(items.len(), 3);
                        assert_eq!(number(&items[0]), "1");
                        assert!(matches!(&items[1].content, Expression::ArrayLiteral(v) if v.len() == 1));
                    },
                    other => panic!("{:?}", other),
                }
                assert!(matches!(&args.posargs[1].content, Expression::ArrayLiteral(v) if v.is_empty()));
            },
            other => panic!("{:?}", other),
        },
        other => panic!("{:?}", other),
    }
}

#[test]
fn parser_rejects_unexpected_token() {
    match parse_err("function f() { ; }") {
        ParseError::UnexpectedToken { value, line } => {
            assert_eq!(value, ";");
            assert_eq!(line, 1);
        },
        other => panic!("{:?}", other),
    }
}

#[test]
fn parser_reports_end_of_tokens() {
    assert!(matches!(parse_err("game a"), ParseError::UnexpectedEof));
    assert!(matches!(parse_err("function f() {"), ParseError::UnexpectedEof));
}

#[test]
fn parser_wants_semicolon_at_statement_end() {
    match parse_err("a b") {
        ParseError::ExpectedValue { expected, got, context, line } => {
            assert_eq!(expected, ";");
            assert_eq!(got, "b");
            assert_eq!(context, Context::StatementEnd);
            assert_eq!(line, 1);
        },
        other => panic!("{:?}", other),
    }
}

#[test]
fn parser_does_not_take_a_string_for_a_symbol() {
    match parse_err("5 \";\"") {
        ParseError::ExpectedValue { expected, got, .. } => {
            assert_eq!(expected, ";");
            assert_eq!(got, ";");
        },
        other => panic!("{:?}", other),
    }
}

#[test]
fn parser_records_warning_markers() {
    let (r, w) = parse_with_warnings("_WARNTEST game a;\n_WARNTEST\nfunction f() {}");
    let stmts = r.expect("parse error");
    assert_eq!(stmts.len(), 2);
    assert_eq!(w, vec![1, 2]);
}

#[test]
fn parser_keeps_warnings_met_before_an_error() {
    let (r, w) = parse_with_warnings("_WARNTEST game a; ;");
    assert!(r.is_err());
    assert_eq!(w, vec![1]);
}

#[test]
fn parser_reads_every_token() {
    let src = "game a;\nfunction f() { local b = [1, 2]; player::message(b, x = a); }";
    let source = src.to_string();
    let file = "f.jc".to_string();
    let tokens = tokenize(source.clone()).unwrap();
    let mut parser = Parser::new(tokens, &source, &file);
    let stmts = parser.parse_program().unwrap();
    assert_eq!(stmts.len(), 2);
    assert_eq!(parser.source_text(), &source);
    assert_eq!(parser.file_name(), &file);
}

#[test]
fn context_describe_phrases() {
    assert_eq!(Context::VariableDeclaration.describe(), "when parsing variable declaration");
    assert_eq!(Context::FunctionParameters.describe(), "when parsing parameters in function declaration");
    assert_eq!(Context::Kwarg.describe(), "when parsing kwarg in argument list");
    assert_eq!(Context::StatementEnd.describe(), "at the end of a statement");
    assert_eq!(Context::Handler.describe(), "when parsing a handler");
}

#[test]
fn expression_box_unwrap_gives_content() {
    let e = ExpressionBox { content: Expression::Identifier("x".to_string()), line: 3 };
    match e.unwrap() {
        Expression::Identifier(n) => assert_eq!(n, "x"),
        other => panic!("{:?}", other),
    }
}

#[test]
fn parser_reads_conditions() {
    let stmts = parse("event<join> {\n  player::has_privilege!(\"WHITELISTED\") {\n    game a;\n  }\n  player::has_privilege(\"VIP\") { }\n  x::y();\n}");
    match &stmts[0].content {
        Statement::EventDefinition { body, .. } => {
            assert_eq!(body.len(), 3);
            match &body[0].content {
                Statement::ExpressionStatement(e) => match &e.content {
                    Expression::Condition { object, method, inverted, args, body } => {
                        assert_eq!(object, "player");
                        assert_eq!(method, "has_privilege");
                        assert!(*inverted);
                        assert_eq!(args.posargs.len(), 1);
                        assert_eq!(body.len(), 1);
                        assert_eq!(body[0].line, 3);
                    },
                    other => panic!("{:?}", other),
                },
                other => panic!("{:?}", other),
            }
            assert_eq!(body[0].line, 2);
            match &body[1].content {
                Statement::ExpressionStatement(e) => {
                    assert!(matches!(&e.content, Expression::Condition { inverted: false, body, .. } if body.is_empty()))
                },
                other => panic!("{:?}", other),
            }
            match &body[2].content {
                Statement::ExpressionStatement(e) => assert!(matches!(&e.content, Expression::MethodCall { .. })),
                other => panic!("{:?}", other),
            }
        },
        other => panic!("{:?}", other),
    }
}

#[test]
fn parser_wants_a_body_after_an_inverted_condition() {
    match parse_err("event<join> { player::has_privilege!(\"VIP\"); }") {
        ParseError::ExpectedValue { expected, got, context, .. } => {
            assert_eq!(expected, "{");
            assert_eq!(got, ";");
            assert_eq!(context, Context::Body);
        },
        other => panic!("{:?}", other),
    }
}

#[test]
fn parser_reads_game_values() {
    let stmts = parse("x::y(value::name, value::f());");
    match &stmts[0].content {
        Statement::ExpressionStatement(e) => match &e.content {
            Expression::MethodCall { args, .. } => {
                assert!(matches!(&args.posargs[0].content, Expression::GameValue(n) if n == "name"));
                assert!(matches!(&args.posargs[1].content, Expression::MethodCall { object, .. } if object == "value"));
            },
            other => panic!("{:?}", other),
        },
        other => panic!("{:?}", other),
    }
}
