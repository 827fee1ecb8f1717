use raven_frontend::parser::code_parser::{create_body, get_line, parse_code, parse_line};
use raven_frontend::parser::util::{parse_integer, render_label, ParserUtils};
use raven_frontend::syntax::async_util::{await_effect, Resolution, Scope};
use raven_frontend::syntax::code::{CodeBody, Effects, Expression, ExpressionType, FieldSlot};
use raven_frontend::syntax::syntax::{Declaration, DeclarationKind, Syntax};
use raven_frontend::syntax::types::Types;
use raven_frontend::tokens::tokenizer::{Tokenizer, TokenizerState};
use raven_frontend::tokens::tokens::{Token, TokenTypes};
use raven_frontend::ImportNameResolver;

fn context(source: &str) -> ParserUtils<'_> {
    let mut tokenizer = Tokenizer::new(source.as_bytes(), TokenizerState::Code);
    let mut tokens = Vec::new();
    loop {
        let token = tokenizer.next();
        tokens.push(token);
        if token.token_type == TokenTypes::EOF {
            break;
        }
    }
    ParserUtils {
        buffer: source.as_bytes(),
        index: 0,
        tokens,
        file: b"main".to_vec(),
        imports: ImportNameResolver::new(b"main".to_vec()),
    }
}

fn line(source: &str) -> Option<(ExpressionType, Effects)> {
    let mut parser_utils = context(source);
    parse_line(&mut parser_utils, false, false).unwrap()
}

fn slot(name: &str) -> FieldSlot {
    FieldSlot { name: name.as_bytes().to_vec(), index: 0 }
}

fn declared(name: &str) -> Declaration {
    Declaration {
        name: name.as_bytes().to_vec(),
        kind: DeclarationKind::Structure,
        fields: Vec::new(),
        return_type: None,
        file: b"other".to_vec(),
        token: Token::new(TokenTypes::Variable, 0, 0),
    }
}

#[test]
fn let_round_trip() {
    let (role, effect) = line("let x = 5;").unwrap();
    assert_eq!(role, ExpressionType::Line);
    let syntax = Syntax::new();
    let resolver = ImportNameResolver::new(b"main".to_vec());
    let scope = Scope { resolver: &resolver, syntax: &syntax, file: b"main" };
    assert_eq!(
        await_effect(&effect, &scope),
        Resolution::Ready(Effects::CreateVariable(b"x".to_vec(), Box::new(Effects::Int(5))))
    );
}

#[test]
fn struct_construction_with_sugar() {
    let mut parser_utils = context("new Point{x: 1, y}");
    let (_, effect) = parse_line(&mut parser_utils, false, false).unwrap().unwrap();
    assert_eq!(parse_line(&mut parser_utils, false, false), Ok(None));
    let name = parser_utils.tokens[1];
    assert_eq!(
        effect,
        Effects::CreateStruct(
            Types::Unresolved(b"Point".to_vec(), name),
            vec![
                (slot("x"), Effects::Int(1)),
                (slot("y"), Effects::LoadVariable(b"y".to_vec())),
            ]
        )
    );
}

#[test]
fn forward_reference_resolves_once_registered() {
    let (_, effect) = line("new Foo{};").unwrap();
    let mut syntax = Syntax::new();
    let resolver = ImportNameResolver::new(b"main".to_vec());
    {
        let scope = Scope { resolver: &resolver, syntax: &syntax, file: b"main" };
        assert_eq!(await_effect(&effect, &scope), Resolution::Waiting(b"Foo".to_vec()));
    }
    syntax.add(declared("other::Bar")).unwrap();
    syntax.add(declared("main::Foo")).unwrap();
    let scope = Scope { resolver: &resolver, syntax: &syntax, file: b"main" };
    assert_eq!(
        await_effect(&effect, &scope),
        Resolution::Ready(Effects::CreateStruct(Types::Struct(b"main::Foo".to_vec()), vec![]))
    );
}

#[test]
fn forward_reference_fails_after_shutdown() {
    let (_, effect) = line("new Foo{};").unwrap();
    let mut syntax = Syntax::new();
    syntax.finish();
    let resolver = ImportNameResolver::new(b"main".to_vec());
    let scope = Scope { resolver: &resolver, syntax: &syntax, file: b"main" };
    match await_effect(&effect, &scope) {
        Resolution::Failed(error) => {
            assert_eq!(error.message, b"Unresolved symbol: Foo".to_vec());
            assert_eq!(error.file, b"main".to_vec());
            assert_eq!((error.start, error.end), (4, 7));
        }
        other => panic!("expected a failure, found {:?}", other),
    }
}

#[test]
fn body_collects_lines_in_order() {
    let mut parser_utils = context("a; return b; }");
    let body = parse_code(&mut parser_utils).unwrap();
    assert_eq!(
        body,
        CodeBody {
            label: b"0".to_vec(),
            expressions: vec![
                Expression {
                    expression_type: ExpressionType::Line,
                    effect: Effects::LoadVariable(b"a".to_vec())
                },
                Expression {
                    expression_type: ExpressionType::Return,
                    effect: Effects::LoadVariable(b"b".to_vec())
                },
            ]
        }
    );
    assert_eq!(parser_utils.imports.last_id, 1);
}

fn error_of(effect: &Effects) -> (Vec<u8>, usize, usize) {
    match effect {
        Effects::Error(error) => (error.message.clone(), error.start, error.end),
        other => panic!("expected a failure, found {:?}", other),
    }
}

fn load(name: &str) -> Effects {
    Effects::LoadVariable(name.as_bytes().to_vec())
}

#[test]
fn line_roles_and_leaves() {
    assert_eq!(line("return x;"), Some((ExpressionType::Return, load("x"))));
    assert_eq!(line("1.5;"), Some((ExpressionType::Line, Effects::Float(b"1.5".to_vec()))));
    assert_eq!(line(";"), Some((ExpressionType::Line, Effects::NOP)));
    assert_eq!(line("}"), None);
    assert_eq!(line(""), None);
    assert_eq!(line("a"), Some((ExpressionType::Line, load("a"))));
    assert_eq!(line("return }"), Some((ExpressionType::Return, Effects::NOP)));
    assert_eq!(line("9223372036854775807;"), Some((ExpressionType::Line, Effects::Int(i64::MAX))));
}

#[test]
fn integer_out_of_range_is_a_failure() {
    let (_, effect) = line("9223372036854775808;").unwrap();
    assert_eq!(error_of(&effect), (b"Integer literal out of range!".to_vec(), 0, 19));
}

#[test]
fn line_leaves_the_closing_brace_to_the_body() {
    let mut parser_utils = context("a } b");
    assert_eq!(
        parse_line(&mut parser_utils, false, false),
        Ok(Some((ExpressionType::Line, load("a"))))
    );
    assert_eq!(parser_utils.index, 1);
    assert_eq!(parse_line(&mut parser_utils, false, false), Ok(None));
    assert_eq!(parser_utils.index, 2);
}

#[test]
fn parentheses_nest() {
    assert_eq!(line("((a));"), Some((ExpressionType::Line, load("a"))));
    let mut parser_utils = context("(a, b) c;");
    assert_eq!(
        parse_line(&mut parser_utils, false, false),
        Ok(Some((ExpressionType::Line, load("c"))))
    );
}

#[test]
fn argument_separator_ends_a_line_outside_parentheses() {
    let mut parser_utils = context("a, b;");
    assert_eq!(
        parse_line(&mut parser_utils, false, false),
        Ok(Some((ExpressionType::Line, load("a"))))
    );
    assert_eq!(parser_utils.index, 2);
    let mut parser_utils = context("a, b;");
    assert_eq!(
        parse_line(&mut parser_utils, false, true),
        Ok(Some((ExpressionType::Line, load("b"))))
    );
}

#[test]
fn assignment_awaits_both_sides() {
    assert_eq!(
        line("x = 5;"),
        Some((
            ExpressionType::Line,
            Effects::Assign(Box::new(load("x")), Box::new(Effects::Int(5)))
        ))
    );
    let (_, effect) = line("x = }").unwrap();
    assert_eq!(error_of(&effect), (b"Tried to assign a void value!".to_vec(), 2, 3));
}

#[test]
fn operator_behind_equals_suppresses_assignment() {
    assert_eq!(
        line("x == 5;"),
        Some((
            ExpressionType::Line,
            Effects::Operation(b"==".to_vec(), Box::new(load("x")), Box::new(Effects::Int(5)))
        ))
    );
    assert_eq!(
        line("x = -5;"),
        Some((
            ExpressionType::Line,
            Effects::Operation(
                b"=".to_vec(),
                Box::new(load("x")),
                Box::new(Effects::Operation(
                    b"-".to_vec(),
                    Box::new(Effects::NOP),
                    Box::new(Effects::Int(5))
                ))
            )
        ))
    );
    assert_eq!(
        line("= 5;"),
        Some((
            ExpressionType::Line,
            Effects::Operation(b"=".to_vec(), Box::new(Effects::NOP), Box::new(Effects::Int(5)))
        ))
    );
}

#[test]
fn operators_take_adjacent_tokens() {
    assert_eq!(
        line("a <= b;"),
        Some((
            ExpressionType::Line,
            Effects::Operation(b"<=".to_vec(), Box::new(load("a")), Box::new(load("b")))
        ))
    );
    assert_eq!(
        line("a + - b;"),
        Some((
            ExpressionType::Line,
            Effects::Operation(
                b"+".to_vec(),
                Box::new(load("a")),
                Box::new(Effects::Operation(
                    b"-".to_vec(),
                    Box::new(Effects::NOP),
                    Box::new(load("b"))
                ))
            )
        ))
    );
    let (_, effect) = line("a + }").unwrap();
    match effect {
        Effects::Operation(operator, left, right) => {
            assert_eq!(operator, b"+".to_vec());
            assert_eq!(*left, load("a"));
            assert_eq!(error_of(&right), (b"Expected value, found void!".to_vec(), 2, 3));
        }
        other => panic!("expected an operation, found {:?}", other),
    }
}

#[test]
fn malformed_let_is_a_failure_and_the_scan_goes_on() {
    let mut parser_utils = context("let 5; b;");
    let (_, effect) = parse_line(&mut parser_utils, false, false).unwrap().unwrap();
    assert_eq!(error_of(&effect), (b"Unexpected token, expected variable name!".to_vec(), 4, 5));
    assert_eq!(
        parse_line(&mut parser_utils, false, false),
        Ok(Some((ExpressionType::Line, Effects::Int(5))))
    );
    assert_eq!(
        parse_line(&mut parser_utils, false, false),
        Ok(Some((ExpressionType::Line, load("b"))))
    );

    let (_, effect) = line("let x 5;").unwrap();
    assert_eq!(error_of(&effect), (b"Unexpected token, expected equals!".to_vec(), 6, 7));
    let (_, effect) = line("let x = }").unwrap();
    assert_eq!(error_of(&effect), (b"Expected value, found void!".to_vec(), 9, 9));
    let (_, effect) = line("let").unwrap();
    assert_eq!(error_of(&effect), (b"Unexpected token, expected variable name!".to_vec(), 3, 3));
}

#[test]
fn nested_block_is_a_value() {
    let mut parser_utils = context("{ a; { b; } };");
    let (_, effect) = parse_line(&mut parser_utils, false, false).unwrap().unwrap();
    assert_eq!(
        effect,
        Effects::CodeBody(CodeBody {
            label: b"1".to_vec(),
            expressions: vec![
                Expression { expression_type: ExpressionType::Line, effect: load("a") },
                Expression {
                    expression_type: ExpressionType::Line,
                    effect: Effects::CodeBody(CodeBody {
                        label: b"0".to_vec(),
                        expressions: vec![Expression {
                            expression_type: ExpressionType::Line,
                            effect: load("b")
                        }]
                    })
                }
            ]
        })
    );
    assert_eq!(parser_utils.imports.last_id, 2);
}

#[test]
fn stop_at_block_open() {
    let mut parser_utils = context("a { b }");
    assert_eq!(
        parse_line(&mut parser_utils, true, false),
        Ok(Some((ExpressionType::Line, load("a"))))
    );
    assert_eq!(parser_utils.index, 2);
}

#[test]
fn for_loop_has_variable_iterator_and_body() {
    assert_eq!(
        line("for item in items { item; }"),
        Some((
            ExpressionType::Line,
            Effects::ForLoop(
                b"item".to_vec(),
                Box::new(load("items")),
                CodeBody {
                    label: b"0".to_vec(),
                    expressions: vec![Expression {
                        expression_type: ExpressionType::Line,
                        effect: load("item")
                    }]
                }
            )
        ))
    );
    let (_, effect) = line("for 1 in items { }").unwrap();
    assert_eq!(error_of(&effect), (b"Expected variable name!".to_vec(), 4, 5));
    let (_, effect) = line("for item of items { }").unwrap();
    assert_eq!(error_of(&effect), (b"Missing \"in\" in for loop.".to_vec(), 9, 11));
}

#[test]
fn struct_construction_forms() {
    let source = "new Point{x: 1}";
    let mut parser_utils = context(source);
    let (_, effect) = parse_line(&mut parser_utils, false, false).unwrap().unwrap();
    let name = parser_utils.tokens[1];
    assert_eq!(
        effect,
        Effects::CreateStruct(
            Types::Unresolved(b"Point".to_vec(), name),
            vec![(slot("x"), Effects::Int(1))]
        )
    );

    let mut parser_utils = context("new Pair<A, List<B>>{a, b,};");
    let (_, effect) = parse_line(&mut parser_utils, false, false).unwrap().unwrap();
    let tokens = parser_utils.tokens.clone();
    assert_eq!(
        effect,
        Effects::CreateStruct(
            Types::Generic(
                Box::new(Types::Unresolved(b"Pair".to_vec(), tokens[1])),
                vec![
                    Types::Unresolved(b"A".to_vec(), tokens[3]),
                    Types::Generic(
                        Box::new(Types::Unresolved(b"List".to_vec(), tokens[5])),
                        vec![Types::Unresolved(b"B".to_vec(), tokens[7])]
                    )
                ]
            ),
            vec![(slot("a"), load("a")), (slot("b"), load("b"))]
        )
    );
}

#[test]
fn malformed_new_is_a_failure() {
    let (_, effect) = line("new {};").unwrap();
    assert_eq!(error_of(&effect), (b"Unexpected token in struct construction!".to_vec(), 4, 5));
    let (_, effect) = line("new Point;").unwrap();
    assert_eq!(error_of(&effect), (b"Unexpected token in struct construction!".to_vec(), 9, 10));
    let (_, effect) = line("new + {}").unwrap();
    assert_eq!(error_of(&effect), (b"Unexpected token in struct construction!".to_vec(), 4, 5));
    let (_, effect) = line("new Point").unwrap();
    assert_eq!(error_of(&effect), (b"Unexpected token in struct construction!".to_vec(), 9, 9));

    let (_, effect) = line("new + x; y").unwrap();
    assert_eq!(error_of(&effect), (b"Unexpected token in struct construction!".to_vec(), 4, 5));

    let (_, effect) = line("new Point{x: , y};").unwrap();
    match effect {
        Effects::CreateStruct(_, arguments) => {
            assert_eq!(arguments.len(), 2);
            assert_eq!(arguments[0], (slot("x"), Effects::NOP));
            assert_eq!(arguments[1], (slot("y"), load("y")));
        }
        other => panic!("expected a struct construction, found {:?}", other),
    }
    let (_, effect) = line("new Point{x: }").unwrap();
    assert_eq!(error_of(&effect), (b"Expected something, found void".to_vec(), 11, 12));
    let mut parser_utils = context("new Point{x; y};");
    let (_, effect) = parse_line(&mut parser_utils, false, false).unwrap().unwrap();
    assert_eq!(error_of(&effect), (b"Unexpected token in struct arguments!".to_vec(), 11, 12));
    assert_eq!(
        parse_line(&mut parser_utils, false, false),
        Ok(Some((ExpressionType::Line, load("y"))))
    );
}

#[test]
fn token_without_a_place_is_a_defect() {
    let mut parser_utils = context("a; while b;");
    assert!(parse_line(&mut parser_utils, false, false).is_ok());
    let defect = parse_line(&mut parser_utils, false, false).unwrap_err();
    assert_eq!(defect.token, Token::new(TokenTypes::While, 3, 8));
    let mut parser_utils = context("{ x.y; }");
    let defect = parse_code(&mut parser_utils).unwrap_err();
    assert_eq!(defect.token.token_type, TokenTypes::CallingType);
    for source in ["break", "switch", "if", "else", "\""] {
        let mut parser_utils = context(source);
        assert!(parse_line(&mut parser_utils, false, false).is_err());
    }
}

#[test]
fn invalid_characters_are_passed_over() {
    let buffer = [b'a', 0xFF, b';'];
    let mut tokenizer = Tokenizer::new(&buffer, TokenizerState::Code);
    let mut tokens = Vec::new();
    loop {
        let token = tokenizer.next();
        tokens.push(token);
        if token.token_type == TokenTypes::EOF {
            break;
        }
    }
    let mut parser_utils = ParserUtils {
        buffer: &buffer,
        index: 0,
        tokens,
        file: b"main".to_vec(),
        imports: ImportNameResolver::new(b"main".to_vec()),
    };
    assert_eq!(
        parse_line(&mut parser_utils, false, false),
        Ok(Some((ExpressionType::Line, load("a"))))
    );
}

#[test]
fn labels_never_repeat() {
    let mut parser_utils = context("{ } { } } { }");
    let first = parse_code(&mut parser_utils).unwrap();
    let second = parse_code(&mut parser_utils).unwrap();
    let mut labels = vec![first.label.clone(), second.label.clone()];
    for expression in first.expressions.iter().chain(second.expressions.iter()) {
        if let Effects::CodeBody(body) = &expression.effect {
            labels.push(body.label.clone());
        }
    }
    labels.sort();
    assert_eq!(labels, vec![b"1".to_vec(), b"2".to_vec(), b"3".to_vec(), b"4".to_vec()]);
    assert_eq!(parser_utils.imports.last_id, 5);
}

#[test]
fn awaiting_reports_the_first_part_that_is_not_ready() {
    let (_, effect) = line("a = new First{x: new Second{}, y: new Third{},};").unwrap();
    let mut syntax = Syntax::new();
    let resolver = ImportNameResolver::new(b"main".to_vec());
    {
        let scope = Scope { resolver: &resolver, syntax: &syntax, file: b"main" };
        assert_eq!(await_effect(&effect, &scope), Resolution::Waiting(b"Second".to_vec()));
    }
    syntax.add(declared("main::Second")).unwrap();
    {
        let scope = Scope { resolver: &resolver, syntax: &syntax, file: b"main" };
        assert_eq!(await_effect(&effect, &scope), Resolution::Waiting(b"Third".to_vec()));
    }
    syntax.add(declared("main::Third")).unwrap();
    {
        let scope = Scope { resolver: &resolver, syntax: &syntax, file: b"main" };
        assert_eq!(await_effect(&effect, &scope), Resolution::Waiting(b"First".to_vec()));
    }
    syntax.finish();
    let scope = Scope { resolver: &resolver, syntax: &syntax, file: b"main" };
    match await_effect(&effect, &scope) {
        Resolution::Failed(error) => assert_eq!(error.message, b"Unresolved symbol: First".to_vec()),
        other => panic!("expected a failure, found {:?}", other),
    }
}

#[test]
fn awaiting_a_failure_fails() {
    let (_, effect) = line("let x = new {};").unwrap();
    let syntax = Syntax::new();
    let resolver = ImportNameResolver::new(b"main".to_vec());
    let scope = Scope { resolver: &resolver, syntax: &syntax, file: b"main" };
    match await_effect(&effect, &scope) {
        Resolution::Failed(error) => {
            assert_eq!(error.message, b"Unexpected token in struct construction!".to_vec())
        }
        other => panic!("expected a failure, found {:?}", other),
    }
}

#[test]
fn registration_order_does_not_show() {
    let (_, effect) = line("new Foo{a: new Bar{},};").unwrap();
    let resolver = ImportNameResolver::new(b"main".to_vec());
    let mut one = Syntax::new();
    one.add(declared("main::Foo")).unwrap();
    one.add(declared("main::Bar")).unwrap();
    let mut other = Syntax::new();
    other.add(declared("main::Bar")).unwrap();
    other.add(declared("main::Foo")).unwrap();
    let first = await_effect(&effect, &Scope { resolver: &resolver, syntax: &one, file: b"main" });
    let second =
        await_effect(&effect, &Scope { resolver: &resolver, syntax: &other, file: b"main" });
    assert_eq!(first, second);
    assert!(matches!(first, Resolution::Ready(_)));
}

#[test]
fn labels_are_decimal() {
    assert_eq!(render_label(0), b"0".to_vec());
    assert_eq!(render_label(9), b"9".to_vec());
    assert_eq!(render_label(10), b"10".to_vec());
    assert_eq!(render_label(1234567890), b"1234567890".to_vec());
    assert_eq!(render_label(u32::MAX), b"4294967295".to_vec());
    assert_eq!(create_body(42, Vec::new()), CodeBody { label: b"42".to_vec(), expressions: vec![] });
}

#[test]
fn integers_are_read_digit_by_digit() {
    assert_eq!(parse_integer(b"0"), Some(0));
    assert_eq!(parse_integer(b"007"), Some(7));
    assert_eq!(parse_integer(b"1234567890123"), Some(1234567890123));
    assert_eq!(parse_integer(b"9223372036854775807"), Some(i64::MAX));
    assert_eq!(parse_integer(b"9223372036854775808"), None);
    assert_eq!(parse_integer(b"99999999999999999999999"), None);
    assert_eq!(parse_integer(b""), None);
    assert_eq!(parse_integer(b"12a"), None);
    assert_eq!(parse_integer(b"-1"), None);
}

#[test]
fn for_loop_without_iterator_is_a_failure() {
    let (_, effect) = line("for item in }").unwrap();
    match effect {
        Effects::ForLoop(name, iterator, body) => {
            assert_eq!(name, b"item".to_vec());
            assert_eq!(error_of(&iterator), (b"Expected value, found void!".to_vec(), 9, 11));
            assert!(body.expressions.is_empty());
        }
        other => panic!("expected a loop, found {:?}", other),
    }
}

#[test]
fn get_line_keeps_role_and_effect() {
    assert_eq!(
        get_line(Effects::Int(3), ExpressionType::Return),
        Expression { expression_type: ExpressionType::Return, effect: Effects::Int(3) }
    );
}
