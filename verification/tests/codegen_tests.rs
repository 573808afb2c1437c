use jclang::actions::{find_action, Action, Argument};
use jclang::codegen::{CValue, Codegen, CodegenError, Warning};
use jclang::compiler::{compile, Compilation, CompileError};
use jclang::json::JsonValue;
use jclang::lexer::{tokenize, LexError};
use jclang::parser::{ParseError, Parser};

fn render(j: &JsonValue) -> String {
    match j {
        JsonValue::Integer(n) => n.to_string(),
        JsonValue::Bool(b) => b.to_string(),
        JsonValue::Number(s) => s.clone(),
        JsonValue::Str(s) => format!("\"{}\"", s),
        JsonValue::Array(v) => {
            let items: Vec<String> = v.iter().map(render).collect();
            format!("[{}]", items.join(","))
        },
        JsonValue::Object(fs) => {
            let items: Vec<String> = fs.iter().map(|(k, v)| format!("\"{}\":{}", k, render(v))).collect();
            format!("{{{}}}", items.join(","))
        },
    }
}

fn cat(parts: &[&str]) -> String {
    parts.concat()
}

fn argument(id: &str) -> Argument {
    Argument { id: id.to_string(), kind: "any".to_string(), values: None }
}

fn action(id: &str, object: &str, name: &str, args: &[&str]) -> Action {
    Action {
        id: id.to_string(),
        name: name.to_string(),
        object: object.to_string(),
        args: args.iter().map(|a| argument(a)).collect(),
        kind: "basic".to_string(),
    }
}

fn catalogue() -> Vec<Action> {
    vec![
        action("if_player_has_privilege", "player", "has_privilege", &["privilege"]),
        action("player_send_message", "player", "message", &["messages"]),
        action("player_give_items", "player", "give_items", &["items", "amount"]),
        action("player_send_message_twin", "player", "message", &["other"]),
    ]
}

fn run(src: &str) -> Compilation {
    compile(&src.to_string(), &"test.jc".to_string(), catalogue())
}

fn module_of(c: &Compilation) -> String {
    match &c.module {
        Ok(j) => render(j),
        Err(e) => panic!("unexpected error {:?}", e),
    }
}

fn codegen_error(src: &str) -> CodegenError {
    match run(src).module {
        Err(CompileError::Codegen(e)) => e,
        other => panic!("expected a code generation error, got {:?}", other),
    }
}

const README_VARIABLES: &str = "game a;

function test1() {
    local b = 123;
    local c = \"hello\";
}

function test2() {
    local b = 456;
    test1();
    player::message(c);
}
";

#[test]
fn codegen_readme_variables_example() {
    let c = run(README_VARIABLES);
    let expected = cat(&[
        "{\"handlers\":[",
        "{\"type\":\"function\",\"position\":1,\"name\":\"test1\",\"operations\":[",
        "{\"action\":\"set_variable_value\",\"values\":[",
        "{\"name\":\"variable\",\"value\":{\"type\":\"variable\",\"scope\":\"local\",\"variable\":\"b\"}},",
        "{\"name\":\"value\",\"value\":{\"type\":\"number\",\"number\":123}}]},",
        "{\"action\":\"set_variable_value\",\"values\":[",
        "{\"name\":\"variable\",\"value\":{\"type\":\"variable\",\"scope\":\"local\",\"variable\":\"c\"}},",
        "{\"name\":\"value\",\"value\":{\"type\":\"text\",\"parsing\":\"legacy\",\"text\":\"hello\"}}]}]},",
        "{\"type\":\"function\",\"position\":2,\"name\":\"test2\",\"operations\":[",
        "{\"action\":\"set_variable_value\",\"values\":[",
        "{\"name\":\"variable\",\"value\":{\"type\":\"variable\",\"scope\":\"local\",\"variable\":\"b\"}},",
        "{\"name\":\"value\",\"value\":{\"type\":\"number\",\"number\":456}}]},",
        "{\"action\":\"call_function\",\"values\":[",
        "{\"name\":\"function_name\",\"value\":{\"type\":\"text\",\"text\":\"test1\",\"parsing\":\"plain\"}}]},",
        "{\"action\":\"player_send_message\",\"values\":[",
        "{\"name\":\"messages\",\"value\":{\"type\":\"variable\",\"scope\":\"local\",\"variable\":\"c\"}}]}]}",
        "]}"
    ]);
    assert_eq!(module_of(&c), expected);
    assert!(c.parse_warnings.is_empty());
    assert_eq!(c.warnings.len(), 1);
    match &c.warnings[0] {
        Warning::PossiblyChanged { variable, defined_line, function, line, redefined_line } => {
            assert_eq!(variable, "b");
            assert_eq!(*defined_line, 9);
            assert_eq!(function, "test1");
            assert_eq!(*line, 10);
            assert_eq!(*redefined_line, 4);
        },
        other => panic!("{:?}", other),
    }
}

#[test]
fn codegen_variables_are_local_to_their_handler() {
    let e = codegen_error("function test1() { local c = 1; }\nfunction test2() { player::message(c); }");
    match e {
        CodegenError::UndefinedVariable { name, line } => {
            assert_eq!(name, "c");
            assert_eq!(line, 2);
        },
        other => panic!("{:?}", other),
    }
}

#[test]
fn codegen_readme_event_example() {
    let src = "function testfunc() {\n  game a = 1;\n}\nevent<player_join> {\n  player::message([\"hello\", \"world\"]);\n  testfunc();\n  var minimessage_test = m\"<red>hi\";\n}\n";
    let c = run(src);
    let expected = cat(&[
        "{\"handlers\":[",
        "{\"type\":\"function\",\"position\":1,\"name\":\"testfunc\",\"operations\":[",
        "{\"action\":\"set_variable_value\",\"values\":[",
        "{\"name\":\"variable\",\"value\":{\"type\":\"variable\",\"scope\":\"game\",\"variable\":\"a\"}},",
        "{\"name\":\"value\",\"value\":{\"type\":\"number\",\"number\":1}}]}]},",
        "{\"type\":\"event\",\"position\":2,\"event\":\"player_join\",\"operations\":[",
        "{\"action\":\"player_send_message\",\"values\":[",
        "{\"name\":\"messages\",\"value\":{\"type\":\"array\",\"values\":[",
        "{\"type\":\"text\",\"parsing\":\"legacy\",\"text\":\"hello\"},",
        "{\"type\":\"text\",\"parsing\":\"legacy\",\"text\":\"world\"}]}}]},",
        "{\"action\":\"call_function\",\"values\":[",
        "{\"name\":\"function_name\",\"value\":{\"type\":\"text\",\"text\":\"testfunc\",\"parsing\":\"plain\"}}]},",
        "{\"action\":\"set_variable_value\",\"values\":[",
        "{\"name\":\"variable\",\"value\":{\"type\":\"variable\",\"scope\":\"line\",\"variable\":\"minimessage_test\"}},",
        "{\"name\":\"value\",\"value\":{\"type\":\"text\",\"parsing\":\"minimessage\",\"text\":\"<red>hi\"}}]}]}",
        "]}"
    ]);
    assert_eq!(module_of(&c), expected);
    assert!(c.warnings.is_empty());
}

#[test]
fn codegen_handlers_are_numbered_in_order() {
    let c = run("game g;\nprocess p() {}\ngame h;\nevent<join> {}\nfunction f() {}");
    match &c.module {
        Ok(JsonValue::Object(fs)) => {
            assert_eq!(fs.len(), 1);
            assert_eq!(fs[0].0, "handlers");
            match &fs[0].1 {
                JsonValue::Array(hs) => {
                    assert_eq!(hs.len(), 3);
                    for (k, h) in hs.iter().enumerate() {
                        match h {
                            JsonValue::Object(m) => {
                                assert_eq!(m[1].0, "position");
                                assert!(matches!(m[1].1, JsonValue::Integer(n) if n as usize == k + 1));
                            },
                            other => panic!("{:?}", other),
                        }
                    }
                    assert_eq!(
                        render(&hs[0]),
                        "{\"type\":\"process\",\"position\":1,\"name\":\"p\",\"operations\":[]}"
                    );
                    assert_eq!(
                        render(&hs[1]),
                        "{\"type\":\"event\",\"position\":2,\"event\":\"join\",\"operations\":[]}"
                    );
                },
                other => panic!("{:?}", other),
            }
        },
        other => panic!("{:?}", other),
    }
}

#[test]
fn codegen_empty_program() {
    let c = run("");
    assert_eq!(module_of(&c), "{\"handlers\":[]}");
}

#[test]
fn codegen_headless_value_is_an_error() {
    assert!(matches!(codegen_error("game a = 1;"), CodegenError::HeadlessDefinition { line: 1 }));
    assert!(matches!(codegen_error("var a = 1;"), CodegenError::HeadlessDefinition { line: 1 }));
}

#[test]
fn codegen_headless_set_is_an_error() {
    assert!(matches!(codegen_error("game a;\na = 1;"), CodegenError::HeadlessSet { line: 2 }));
}

#[test]
fn codegen_headless_expression_is_an_error() {
    assert!(matches!(codegen_error("player::message(1);"), CodegenError::HeadlessExpression { line: 1 }));
}

#[test]
fn codegen_global_declared_twice() {
    match codegen_error("game a;\nsave a;") {
        CodegenError::AlreadyDeclared { name, previous_line, line } => {
            assert_eq!(name, "a");
            assert_eq!(previous_line, 1);
            assert_eq!(line, 2);
        },
        other => panic!("{:?}", other),
    }
}

#[test]
fn codegen_local_shadowing_a_global() {
    match codegen_error("game a;\nfunction f() {\n local a;\n}") {
        CodegenError::AlreadyDeclared { name, previous_line, line } => {
            assert_eq!(name, "a");
            assert_eq!(previous_line, 1);
            assert_eq!(line, 3);
        },
        other => panic!("{:?}", other),
    }
}

#[test]
fn codegen_local_declared_twice() {
    match codegen_error("function f() {\n local x;\n local x = 2;\n}") {
        CodegenError::AlreadyDeclared { name, previous_line, line } => {
            assert_eq!(name, "x");
            assert_eq!(previous_line, 2);
            assert_eq!(line, 3);
        },
        other => panic!("{:?}", other),
    }
}

#[test]
fn codegen_global_variable_in_a_handler() {
    let c = run("save coins;\nevent<join> { coins = 5; player::message(coins); }");
    let expected = cat(&[
        "{\"handlers\":[{\"type\":\"event\",\"position\":1,\"event\":\"join\",\"operations\":[",
        "{\"action\":\"set_variable_value\",\"values\":[",
        "{\"name\":\"variable\",\"value\":{\"type\":\"variable\",\"scope\":\"save\",\"variable\":\"coins\"}},",
        "{\"name\":\"value\",\"value\":{\"type\":\"number\",\"number\":5}}]},",
        "{\"action\":\"player_send_message\",\"values\":[",
        "{\"name\":\"messages\",\"value\":{\"type\":\"variable\",\"scope\":\"save\",\"variable\":\"coins\"}}]}",
        "]}]}"
    ]);
    assert_eq!(module_of(&c), expected);
}

#[test]
fn codegen_undefined_variable_in_assignment() {
    match codegen_error("function f() {\n x = 1;\n}") {
        CodegenError::UndefinedVariable { name, line } => {
            assert_eq!(name, "x");
            assert_eq!(line, 2);
        },
        other => panic!("{:?}", other),
    }
}

#[test]
fn codegen_undefined_function() {
    assert!(matches!(codegen_error("function f() { g(); }\nfunction g() {}"), CodegenError::UndefinedFunction { line: 1 }));
}

#[test]
fn codegen_process_call_starts_it() {
    let c = run("process p() {}\nfunction f() { p(); }");
    let expected = cat(&[
        "{\"handlers\":[",
        "{\"type\":\"process\",\"position\":1,\"name\":\"p\",\"operations\":[]},",
        "{\"type\":\"function\",\"position\":2,\"name\":\"f\",\"operations\":[",
        "{\"action\":\"start_process\",\"values\":[",
        "{\"name\":\"process_name\",\"value\":{\"type\":\"text\",\"text\":\"p\",\"parsing\":\"plain\"}}]}]}",
        "]}"
    ]);
    assert_eq!(module_of(&c), expected);
}

#[test]
fn codegen_undefined_action() {
    assert!(matches!(codegen_error("function f() {\n foo::bar();\n}"), CodegenError::UndefinedAction { line: 2 }));
}

#[test]
fn codegen_argument_count_mismatch() {
    match codegen_error("function f() { player::message(1, 2); }") {
        CodegenError::ArgumentCountMismatch { expected, got, line } => {
            assert_eq!(expected, 1);
            assert_eq!(got, 2);
            assert_eq!(line, 1);
        },
        other => panic!("{:?}", other),
    }
}

#[test]
fn codegen_named_and_positional_arguments() {
    let c = run("function f() { player::give_items(1, extra = 2.5, note = \"x\"); }");
    let expected = cat(&[
        "{\"handlers\":[{\"type\":\"function\",\"position\":1,\"name\":\"f\",\"operations\":[",
        "{\"action\":\"player_give_items\",\"values\":[",
        "{\"name\":\"items\",\"value\":{\"type\":\"number\",\"number\":1}},",
        "{\"name\":\"extra\",\"value\":{\"type\":\"number\",\"number\":2.5}},",
        "{\"name\":\"note\",\"value\":{\"type\":\"text\",\"parsing\":\"legacy\",\"text\":\"x\"}}]}",
        "]}]}"
    ]);
    assert_eq!(module_of(&c), expected);
}

#[test]
fn codegen_explicit_variables_need_no_declaration() {
    let c = run("function f() { player::message([g`score`, ln`tmp`]); }");
    let expected = cat(&[
        "{\"handlers\":[{\"type\":\"function\",\"position\":1,\"name\":\"f\",\"operations\":[",
        "{\"action\":\"player_send_message\",\"values\":[",
        "{\"name\":\"messages\",\"value\":{\"type\":\"array\",\"values\":[",
        "{\"type\":\"variable\",\"scope\":\"game\",\"variable\":\"score\"},",
        "{\"type\":\"variable\",\"scope\":\"line\",\"variable\":\"tmp\"}]}}]}",
        "]}]}"
    ]);
    assert_eq!(module_of(&c), expected);
}

#[test]
fn codegen_function_call_as_value() {
    assert!(matches!(
        codegen_error("function g() {}\nfunction f() {\n local x = g();\n}"),
        CodegenError::FunctionCallAsValue { line: 3 }
    ));
}

#[test]
fn codegen_action_call_as_value() {
    assert!(matches!(
        codegen_error("function f() { player::message(player::message()); }"),
        CodegenError::ActionCallAsValue { line: 1 }
    ));
}

#[test]
fn codegen_definition_inside_handler() {
    assert!(matches!(
        codegen_error("function f() {\n function g() {}\n}"),
        CodegenError::DefinitionInHandler { line: 2 }
    ));
    assert!(matches!(codegen_error("event<a> { event<b> {} }"), CodegenError::DefinitionInHandler { line: 1 }));
}

#[test]
fn codegen_expression_without_action_warns() {
    let c = run("function f() {\n 5;\n \"x\";\n}");
    assert_eq!(
        module_of(&c),
        "{\"handlers\":[{\"type\":\"function\",\"position\":1,\"name\":\"f\",\"operations\":[]}]}"
    );
    assert_eq!(c.warnings.len(), 2);
    assert!(matches!(c.warnings[0], Warning::NoAction { line: 2 }));
    assert!(matches!(c.warnings[1], Warning::NoAction { line: 3 }));
}

#[test]
fn codegen_expression_without_action_still_needs_its_variables() {
    let c = run("function f() {\n y;\n}");
    assert!(matches!(c.module, Err(CompileError::Codegen(CodegenError::UndefinedVariable { line: 2, .. }))));
    assert_eq!(c.warnings.len(), 1);
    assert!(matches!(c.warnings[0], Warning::NoAction { line: 2 }));
}

#[test]
fn codegen_generator_used_directly() {
    let source = "function f() { local a = 1; }\nfunction g() { local a = 2; f(); }".to_string();
    let file = "direct.jc".to_string();
    let tokens = tokenize(source.clone()).unwrap();
    let mut parser = Parser::new(tokens, &source, &file);
    let stmts = parser.parse_program().unwrap();
    let mut generator = Codegen::new(catalogue(), stmts, &source, &file);
    let module = generator.generate().unwrap();
    assert!(render(&module).starts_with("{\"handlers\":[{\"type\":\"function\",\"position\":1"));
    assert_eq!(generator.warnings().len(), 1);
    assert_eq!(generator.source_text(), &source);
    assert_eq!(generator.file_name(), &file);
    let ws = generator.into_warnings();
    assert!(matches!(&ws[0], Warning::PossiblyChanged { variable, line: 2, redefined_line: 1, defined_line: 2, .. } if variable == "a"));
}

#[test]
fn codegen_call_adds_each_function_variable_once() {
    let c = run("function f() { local a; local b; }\nfunction g() { local b; f(); a = 1; b = 2; }");
    assert!(c.module.is_ok());
    assert_eq!(c.warnings.len(), 1);
    assert!(matches!(&c.warnings[0], Warning::PossiblyChanged { variable, .. } if variable == "b"));
}

#[test]
fn compile_reports_lexer_errors() {
    let c = run("game a;\nfunction f() { $ }");
    assert!(matches!(
        c.module,
        Err(CompileError::Lex(LexError::UnknownCharacter { character: '$', line: 2 }))
    ));
    assert!(c.parse_warnings.is_empty());
    assert!(c.warnings.is_empty());
}

#[test]
fn compile_reports_parse_errors_with_warnings_before() {
    let c = run("_WARNTEST game a;\n_WARNTEST function f( {}");
    assert!(matches!(c.module, Err(CompileError::Parse(ParseError::ExpectedKind { line: 2, .. }))));
    assert_eq!(c.parse_warnings, vec![1, 2]);
    assert!(c.warnings.is_empty());
}

#[test]
fn compile_keeps_parser_warnings_on_success() {
    let c = run("_WARNTEST\ngame a;");
    assert_eq!(module_of(&c), "{\"handlers\":[]}");
    assert_eq!(c.parse_warnings, vec![1]);
}

#[test]
fn find_action_takes_the_first_match() {
    let acts = catalogue();
    let a = find_action(&acts, "player", "message").unwrap();
    assert_eq!(a.id, "player_send_message");
    assert_eq!(find_action(&acts, "player", "give_items").unwrap().args.len(), 2);
    assert!(find_action(&acts, "player", "fly").is_none());
    assert!(find_action(&acts, "world", "message").is_none());
    assert!(find_action(&Vec::new(), "player", "message").is_none());
}

#[test]
fn cvalue_finalize_shapes() {
    let v = CValue::Array(vec![
        CValue::Number("1.5".to_string()),
        CValue::Text { parsing: "plain".to_string(), text: "hi".to_string() },
        CValue::Variable { scope: "save".to_string(), name: "x".to_string() },
        CValue::Array(vec![]),
    ]);
    assert_eq!(
        render(&v.finalize()),
        cat(&[
            "{\"type\":\"array\",\"values\":[",
            "{\"type\":\"number\",\"number\":1.5},",
            "{\"type\":\"text\",\"parsing\":\"plain\",\"text\":\"hi\"},",
            "{\"type\":\"variable\",\"scope\":\"save\",\"variable\":\"x\"},",
            "{\"type\":\"array\",\"values\":[]}]}"
        ])
    );
}

#[test]
fn codegen_warnings_accumulate_in_order() {
    let c = run("function f() {\n 1;\n}\nfunction g() {\n 2;\n x;\n}");
    assert!(matches!(c.module, Err(CompileError::Codegen(CodegenError::UndefinedVariable { line: 6, .. }))));
    let lines: Vec<u32> = c
        .warnings
        .iter()
        .map(|w| match w {
            Warning::NoAction { line } => *line,
            other => panic!("{:?}", other),
        })
        .collect();
    assert_eq!(lines, vec![2, 5, 6]);
}

#[test]
fn codegen_mixed_program_compiles() {
    let src = "game a;\n\nfunction test1() {\n    local b = 123;\n    local c = \"hello\";\n}\n\nevent<player_join> {\n    player::message([\"hello\", \"world\"]);\n    test1();\n    var greeting = m\"<red>hi\";\n    player::message([c, g`score`]);\n}\n";
    let c = run(src);
    let doc = module_of(&c);
    assert!(doc.contains("{\"type\":\"event\",\"position\":2,\"event\":\"player_join\""));
    assert!(doc.contains("{\"type\":\"variable\",\"scope\":\"local\",\"variable\":\"c\"}"));
    assert!(doc.contains("{\"type\":\"variable\",\"scope\":\"line\",\"variable\":\"greeting\"}"));
    assert!(c.warnings.is_empty());
}

fn word_tokens(words: &[&str]) -> Vec<jclang::lexer::Token> {
    words
        .iter()
        .map(|w| jclang::lexer::Token {
            kind: if w.chars().all(|c| c.is_ascii_alphanumeric() || c == '_') {
                jclang::lexer::TokenType::Identifier
            } else {
                jclang::lexer::TokenType::Symbol
            },
            value: w.to_string(),
            line: 1,
        })
        .collect()
}

#[test]
fn codegen_handler_as_value() {
    let source = String::new();
    let file = "tokens.jc".to_string();
    let tokens = word_tokens(&["function", "f", "(", ")", "{", "local", "x", "=", "(", ")", "=>", "{", "}", ";", "}"]);
    let mut parser = Parser::new(tokens, &source, &file);
    let stmts = parser.parse_program().unwrap();
    let mut generator = Codegen::new(catalogue(), stmts, &source, &file);
    assert!(matches!(generator.generate(), Err(CodegenError::HandlerAsValue { line: 1 })));
}

#[test]
fn parser_reads_handler_after_arguments() {
    let source = String::new();
    let file = "tokens.jc".to_string();
    let tokens = word_tokens(&[
        "event", "<", "e", ">", "{", "player", "::", "message", "(", "(", ")", "=>", "{", "}", ")", ";", "}",
    ]);
    let mut parser = Parser::new(tokens, &source, &file);
    let stmts = parser.parse_program().unwrap();
    match &stmts[0].content {
        jclang::ast::Statement::EventDefinition { body, .. } => match &body[0].content {
            jclang::ast::Statement::ExpressionStatement(e) => match &e.content {
                jclang::ast::Expression::MethodCall { args, .. } => {
                    assert_eq!(args.posargs.len(), 0);
                    assert!(matches!(
                        args.handler.as_ref().map(|h| &h.content),
                        Some(jclang::ast::Expression::Handler(b)) if b.is_empty()
                    ));
                },
                other => panic!("{:?}", other),
            },
            other => panic!("{:?}", other),
        },
        other => panic!("{:?}", other),
    }
}

#[test]
fn codegen_factory_values() {
    let c = run("function f() {\n local here = location(1, 2.5, 3, 0, 90);\n player::message([vector(1, 2, 3), sound(\"block.note\", 1, 0.5, \"master\")]);\n}");
    let expected = cat(&[
        "{\"handlers\":[{\"type\":\"function\",\"position\":1,\"name\":\"f\",\"operations\":[",
        "{\"action\":\"set_variable_value\",\"values\":[",
        "{\"name\":\"variable\",\"value\":{\"type\":\"variable\",\"scope\":\"local\",\"variable\":\"here\"}},",
        "{\"name\":\"value\",\"value\":{\"type\":\"location\",\"x\":1,\"y\":2.5,\"z\":3,\"yaw\":0,\"pitch\":90}}]},",
        "{\"action\":\"player_send_message\",\"values\":[",
        "{\"name\":\"messages\",\"value\":{\"type\":\"array\",\"values\":[",
        "{\"type\":\"vector\",\"x\":1,\"y\":2,\"z\":3},",
        "{\"type\":\"sound\",\"sound\":\"block.note\",\"pitch\":1,\"volume\":0.5,\"source\":\"master\"}]}}]}",
        "]}]}",
    ]);
    assert_eq!(module_of(&c), expected);
}

#[test]
fn codegen_potion_and_particle_factories() {
    let c = run("function f() { player::message([potion(\"speed\", 1, 200), particle(\"flame\", 10, 0.5, 0.5)]); }");
    let doc = module_of(&c);
    assert!(doc.contains("{\"type\":\"potion\",\"potion\":\"speed\",\"amplifier\":1,\"duration\":200}"));
    assert!(doc.contains("{\"type\":\"particle\",\"particle_type\":\"flame\",\"count\":10,\"first_spread\":0.5,\"second_spread\":0.5}"));
}

#[test]
fn codegen_factory_argument_count() {
    match codegen_error("function f() {\n local v = vector(1, 2);\n}") {
        CodegenError::FactoryArgumentCount { expected, got, line } => {
            assert_eq!(expected, 3);
            assert_eq!(got, 2);
            assert_eq!(line, 2);
        },
        other => panic!("{:?}", other),
    }
}

#[test]
fn codegen_factory_takes_no_variables() {
    assert!(matches!(
        codegen_error("function f() {\n local a = 1;\n local v = vector(1,\n a, 3);\n}"),
        CodegenError::FactoryNeedsPlainValue { line: 4 }
    ));
}

#[test]
fn codegen_readme_condition_example() {
    let src = "event<player_join> {\n  player::has_privilege!(\"WHITELISTED\") {\n    player::message([\"not whitelisted\"]);\n  }\n}";
    let c = run(src);
    let expected = cat(&[
        "{\"handlers\":[{\"type\":\"event\",\"position\":1,\"event\":\"player_join\",\"operations\":[",
        "{\"action\":\"if_player_has_privilege\",\"values\":[",
        "{\"name\":\"privilege\",\"value\":{\"type\":\"text\",\"parsing\":\"legacy\",\"text\":\"WHITELISTED\"}}],",
        "\"is_inverted\":true,\"operations\":[",
        "{\"action\":\"player_send_message\",\"values\":[",
        "{\"name\":\"messages\",\"value\":{\"type\":\"array\",\"values\":[",
        "{\"type\":\"text\",\"parsing\":\"legacy\",\"text\":\"not whitelisted\"}]}}]}]}",
        "]}]}",
    ]);
    assert_eq!(module_of(&c), expected);
}

#[test]
fn codegen_condition_body_shares_the_handler_variables() {
    let c = run("function f() {\n local a = 1;\n player::has_privilege(\"VIP\", extra = a) {\n  local b = a;\n }\n player::message(b);\n}");
    let doc = module_of(&c);
    assert!(doc.contains("\"is_inverted\":false"));
    assert!(doc.contains("{\"name\":\"extra\",\"value\":{\"type\":\"variable\",\"scope\":\"local\",\"variable\":\"a\"}}"));
    assert!(doc.contains("{\"name\":\"messages\",\"value\":{\"type\":\"variable\",\"scope\":\"local\",\"variable\":\"b\"}}"));
}

#[test]
fn codegen_condition_errors() {
    assert!(matches!(codegen_error("function f() {\n nope::x() { }\n}"), CodegenError::UndefinedAction { line: 2 }));
    assert!(matches!(
        codegen_error("function f() { player::has_privilege(1, 2) { } }"),
        CodegenError::ArgumentCountMismatch { expected: 1, got: 2, line: 1 }
    ));
    assert!(matches!(
        codegen_error("function f() {\n player::has_privilege(1) {\n  function g() {}\n }\n}"),
        CodegenError::DefinitionInHandler { line: 3 }
    ));
}

#[test]
fn codegen_readme_syntax_example() {
    let src = "function testfunc() {\n  game a = 1;\n}\nevent<player_join> {\n  player::message([\"hello\", \"world\"]);\n  testfunc();\n  var minimessage_test = m\"<red>hi\";\n  player::has_privilege!(\"WHITELISTED\") {\n    player::message([ value::name, \" not whitelisted!\" ]);\n  }\n}\n";
    let c = run(src);
    let doc = module_of(&c);
    assert!(doc.contains(&cat(&[
        "{\"action\":\"if_player_has_privilege\",\"values\":[",
        "{\"name\":\"privilege\",\"value\":{\"type\":\"text\",\"parsing\":\"legacy\",\"text\":\"WHITELISTED\"}}],",
        "\"is_inverted\":true,\"operations\":[{\"action\":\"player_send_message\",\"values\":[",
        "{\"name\":\"messages\",\"value\":{\"type\":\"array\",\"values\":[",
        "{\"type\":\"game_value\",\"game_value\":\"name\",\"selection\":\"null\"},",
        "{\"type\":\"text\",\"parsing\":\"legacy\",\"text\":\" not whitelisted!\"}]}}]}]}",
    ])));
    assert!(c.warnings.is_empty());
}

#[test]
fn codegen_game_value_statement_warns() {
    let c = run("function f() {\n value::name;\n}");
    assert_eq!(c.warnings.len(), 1);
    assert!(matches!(c.warnings[0], Warning::NoAction { line: 2 }));
}

#[test]
fn codegen_handlers_follow_definitions() {
    let c = run("event<join> {}\ngame g;\nprocess p() {}\nfunction f() {}");
    match &c.module {
        Ok(JsonValue::Object(fs)) => match &fs[0].1 {
            JsonValue::Array(hs) => {
                let heads: Vec<(String, String)> = hs
                    .iter()
                    .map(|h| match h {
                        JsonValue::Object(m) => (render(&m[0].1), render(&m[2].1)),
                        other => panic!("{:?}", other),
                    })
                    .collect();
                let want: Vec<(String, String)> = vec![("\"event\"", "\"join\""), ("\"process\"", "\"p\""), ("\"function\"", "\"f\"")]
                    .into_iter()
                    .map(|(a, b)| (a.to_string(), b.to_string()))
                    .collect();
                assert_eq!(heads, want);
            },
            other => panic!("{:?}", other),
        },
        other => panic!("{:?}", other),
    }
}

#[test]
fn codegen_library_overview_program_compiles() {
    let src = "game a;\n\nfunction test1(x, y) {\n    local b = 123;\n    local c = \"hello\";\n}\n\nevent<player_join> {\n    player::message([\"hello\", \"world\"]);\n    test1();\n    var greeting = m\"<red>hi\";\n    player::message([c, g`score`]);\n    player::has_privilege!(\"VIP\") {\n        player::message([value::name]);\n    }\n    local spot = location(1, 64, 1, 0, 0);\n}\n";
    let c = run(src);
    let doc = module_of(&c);
    assert!(doc.contains("\"is_inverted\":true"));
    assert!(doc.contains("{\"type\":\"location\",\"x\":1,\"y\":64,\"z\":1,\"yaw\":0,\"pitch\":0}"));
    assert!(c.warnings.is_empty());
}
