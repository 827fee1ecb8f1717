use raven_frontend::parser::top_parser::TopElements;
use raven_frontend::syntax::async_util::{
    await_declaration, await_function, Resolution, Scope,
};
use raven_frontend::syntax::code::{CodeBody, Effects, Expression, ExpressionType};
use raven_frontend::syntax::function::CheckState;
use raven_frontend::syntax::syntax::{Declaration, DeclarationKind, Field, Syntax};
use raven_frontend::syntax::types::Types;
use raven_frontend::tokens::tokenizer::TokenizerState;
use raven_frontend::tokens::tokens::{Token, TokenTypes};
use raven_frontend::{parse, register, tokenize, ImportNameResolver};

fn parsed(source: &str) -> (TopElements, ImportNameResolver) {
    parse(b"main".to_vec(), source.as_bytes()).unwrap()
}

fn messages(elements: &TopElements) -> Vec<String> {
    elements
        .errors
        .iter()
        .map(|error| String::from_utf8(error.message.clone()).unwrap())
        .collect()
}

fn builtin(name: &str) -> Declaration {
    Declaration {
        name: name.as_bytes().to_vec(),
        kind: DeclarationKind::Structure,
        fields: Vec::new(),
        return_type: None,
        file: b"builtin".to_vec(),
        token: Token::new(TokenTypes::Variable, 0, 0),
    }
}

#[test]
fn tokenize_reads_up_to_the_end_of_file() {
    let tokens = tokenize(b"fn f", TokenizerState::TopElement);
    assert_eq!(
        tokens,
        vec![
            Token::new(TokenTypes::Variable, 0, 2),
            Token::new(TokenTypes::Variable, 3, 4),
            Token::new(TokenTypes::EOF, 4, 4)
        ]
    );
    assert_eq!(tokenize(b"", TokenizerState::Code), vec![Token::new(TokenTypes::EOF, 0, 0)]);
}

#[test]
fn file_declares_structs_and_functions() {
    let source = "import math;\n\
struct Point { x: i64, y: List<i64> }\n\
fn origin() -> Point { let zero = 0; return new Point{x: zero, y: zero,}; }\n\
fn nothing(a: i64, b: Point) { }";
    let (elements, resolver) = parsed(source);
    assert_eq!(messages(&elements), Vec::<String>::new());
    assert_eq!(resolver.imports, vec![b"main".to_vec(), b"math".to_vec()]);

    assert_eq!(elements.structures.len(), 1);
    let point = &elements.structures[0];
    assert_eq!(point.name, b"main::Point".to_vec());
    assert_eq!(point.kind, DeclarationKind::Structure);
    assert_eq!(point.file, b"main".to_vec());
    assert_eq!(point.token.text(source.as_bytes()), b"Point".to_vec());
    assert_eq!(point.return_type, None);
    assert_eq!(point.fields.len(), 2);
    assert_eq!(point.fields[0].name, b"x".to_vec());
    assert!(matches!(&point.fields[0].field_type, Types::Unresolved(name, _) if name == b"i64"));
    assert!(matches!(&point.fields[1].field_type, Types::Generic(_, arguments) if arguments.len() == 1));

    assert_eq!(elements.functions.len(), 2);
    let origin = &elements.functions[0];
    assert_eq!(origin.declaration.name, b"main::origin".to_vec());
    assert_eq!(origin.declaration.kind, DeclarationKind::Function);
    assert!(origin.declaration.fields.is_empty());
    assert!(matches!(&origin.declaration.return_type, Some(Types::Unresolved(name, _)) if name == b"Point"));
    assert_eq!(origin.state, CheckState::Unchecked);
    assert_eq!(origin.code.label, b"0".to_vec());
    assert_eq!(origin.code.expressions.len(), 2);
    assert_eq!(
        origin.code.expressions[0],
        Expression {
            expression_type: ExpressionType::Line,
            effect: Effects::CreateVariable(b"zero".to_vec(), Box::new(Effects::Int(0)))
        }
    );
    assert_eq!(origin.code.expressions[1].expression_type, ExpressionType::Return);

    let nothing = &elements.functions[1];
    assert_eq!(nothing.declaration.name, b"main::nothing".to_vec());
    assert_eq!(nothing.declaration.fields.len(), 2);
    assert_eq!(nothing.declaration.fields[1].name, b"b".to_vec());
    assert_eq!(nothing.declaration.return_type, None);
    assert_eq!(nothing.code, CodeBody { label: b"1".to_vec(), expressions: vec![] });
}

#[test]
fn one_file_reports_several_failures() {
    let source = "struct { } fn broken( { } 12 fn fine() { } struct Late { a b }";
    let (elements, _) = parsed(source);
    let found = messages(&elements);
    assert!(found.len() >= 4);
    assert_eq!(found[0], "Expected a name!");
    assert!(found.contains(&"Unexpected token among the fields!".to_string()));
    assert!(found.contains(&"Unexpected token at the top level!".to_string()));
    assert!(found.contains(&"Expected a colon!".to_string()));
    assert_eq!(elements.functions.len(), 1);
    assert_eq!(elements.functions[0].declaration.name, b"main::fine".to_vec());
    assert!(elements.structures.is_empty());
}

#[test]
fn malformed_headers() {
    assert_eq!(messages(&parsed("import ;").0), vec!["Expected a name!"]);
    assert_eq!(messages(&parsed("struct Point;").0)[0], "Expected a body!");
    assert_eq!(messages(&parsed("fn main { }").0)[0], "Expected parameters!");
    assert_eq!(messages(&parsed("fn main() -> { }").0)[0], "Expected a type!");
    assert_eq!(messages(&parsed("fn main();").0)[0], "Expected a body!");
    assert_eq!(messages(&parsed("fn main(a: ) { }").0)[0], "Expected a type!");
    assert_eq!(messages(&parsed("struct Point { x: i64").0), vec!["Unexpected end of file!"]);
}

#[test]
fn defect_in_a_body_ends_the_parse() {
    let defect = parse(b"main".to_vec(), b"fn main() { while x; }").unwrap_err();
    assert_eq!(defect.token, Token::new(TokenTypes::While, 12, 17));
}

#[test]
fn registration_keeps_the_first_of_two_declarations() {
    let (elements, _) = parsed("struct A { } fn A() { } struct B { } struct B { }");
    let mut syntax = Syntax::new();
    let errors = register(&mut syntax, &elements);
    assert_eq!(errors.len(), 2);
    assert!(errors.iter().all(|error| error.message == b"Duplicate definition!".to_vec()));
    assert_eq!(errors[0].start, 44);
    assert_eq!(errors[1].start, 16);
    let names: Vec<Vec<u8>> = syntax.declarations.iter().map(|found| found.name.clone()).collect();
    assert_eq!(names, vec![b"main::A".to_vec(), b"main::B".to_vec()]);
    assert_eq!(syntax.get(b"main::A").unwrap().kind, DeclarationKind::Structure);
}

#[test]
fn files_resolve_each_other_in_any_order() {
    let first = parse(b"first".to_vec(), b"import second; fn make() -> Other { return new Other{}; }").unwrap();
    let second = parse(b"second".to_vec(), b"import first; struct Other { } fn call() { }").unwrap();

    let mut results = Vec::new();
    for order in [[0, 1], [1, 0]] {
        let mut syntax = Syntax::new();
        let files = [&first, &second];
        {
            let scope = Scope { resolver: &first.1, syntax: &syntax, file: b"first" };
            assert_eq!(
                await_function(&first.0.functions[0], &scope),
                Resolution::Waiting(b"Other".to_vec())
            );
        }
        for index in order {
            assert!(register(&mut syntax, &files[index].0).is_empty());
        }
        syntax.finish();
        let scope = Scope { resolver: &first.1, syntax: &syntax, file: b"first" };
        results.push(await_function(&first.0.functions[0], &scope));
    }
    assert_eq!(results[0], results[1]);
    match &results[0] {
        Resolution::Ready(function) => {
            assert_eq!(function.declaration.return_type, Some(Types::Struct(b"second::Other".to_vec())));
            assert_eq!(
                function.code.expressions[0].effect,
                Effects::CreateStruct(Types::Struct(b"second::Other".to_vec()), vec![])
            );
        }
        other => panic!("expected a function, found {:?}", other),
    }
}

#[test]
fn declarations_resolve_their_field_types() {
    let (elements, resolver) = parsed("struct Point { x: i64, next: Point }");
    let mut syntax = Syntax::new();
    syntax.add(builtin("i64")).unwrap();
    assert!(register(&mut syntax, &elements).is_empty());
    let scope = Scope { resolver: &resolver, syntax: &syntax, file: b"main" };
    match await_declaration(&elements.structures[0], &scope) {
        Resolution::Ready(declaration) => {
            assert_eq!(
                declaration.fields,
                vec![
                    Field { name: b"x".to_vec(), field_type: Types::Struct(b"i64".to_vec()) },
                    Field { name: b"next".to_vec(), field_type: Types::Struct(b"main::Point".to_vec()) },
                ]
            );
            assert_eq!(declaration.name, b"main::Point".to_vec());
        }
        other => panic!("expected a declaration, found {:?}", other),
    }
    let (elements, resolver) = parsed("struct Point { x: u8 }");
    syntax.finish();
    let scope = Scope { resolver: &resolver, syntax: &syntax, file: b"main" };
    match await_declaration(&elements.structures[0], &scope) {
        Resolution::Failed(error) => assert_eq!(error.message, b"Unresolved symbol: u8".to_vec()),
        other => panic!("expected a failure, found {:?}", other),
    }
}
