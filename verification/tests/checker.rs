use raven_frontend::checker::check_function::{verify_all, verify_function, CheckerVariableManager};
use raven_frontend::checker::output::{OperatorRule, TypesChecker};
use raven_frontend::parse;
use raven_frontend::syntax::async_util::{await_function, Resolution, Scope};
use raven_frontend::syntax::code::{CodeBody, Effects, Expression, ExpressionType, FieldSlot};
use raven_frontend::syntax::errors::ParsingError;
use raven_frontend::syntax::function::{CheckState, Function};
use raven_frontend::syntax::syntax::{Declaration, DeclarationKind, Field, Syntax};
use raven_frontend::syntax::types::Types;
use raven_frontend::tokens::tokens::{Token, TokenTypes};

fn named(name: &str) -> Types {
    Types::Struct(name.as_bytes().to_vec())
}

fn config() -> TypesChecker {
    let rule = |operator: &str, left: Option<&str>, right: &str, result: &str| OperatorRule {
        operator: operator.as_bytes().to_vec(),
        left: left.map(named),
        right: named(right),
        result: named(result),
    };
    TypesChecker {
        integer: named("i64"),
        float: named("f64"),
        operators: vec![
            rule("+", Some("i64"), "i64", "i64"),
            rule("+", Some("f64"), "f64", "f64"),
            rule("-", None, "i64", "i64"),
            rule("==", Some("i64"), "i64", "bool"),
            rule("+", Some("i64"), "i64", "never"),
        ],
    }
}

fn structure(name: &str, fields: &[(&str, &str)]) -> Declaration {
    Declaration {
        name: name.as_bytes().to_vec(),
        kind: DeclarationKind::Structure,
        fields: fields
            .iter()
            .map(|(field, types)| Field { name: field.as_bytes().to_vec(), field_type: named(types) })
            .collect(),
        return_type: None,
        file: b"main".to_vec(),
        token: Token::new(TokenTypes::Variable, 0, 0),
    }
}

fn registry() -> Syntax {
    let mut syntax = Syntax::new();
    syntax.add(structure("i64", &[])).unwrap();
    syntax.add(structure("f64", &[])).unwrap();
    syntax.add(structure("main::Point", &[("x", "i64"), ("y", "f64")])).unwrap();
    syntax.add(structure("main::Empty", &[])).unwrap();
    let mut function = structure("main::helper", &[]);
    function.kind = DeclarationKind::Function;
    syntax.add(function).unwrap();
    syntax.finish();
    syntax
}

fn function(body: &str) -> Function {
    let source = format!("fn main() {{ {} }}", body);
    let (elements, resolver) = parse(b"main".to_vec(), source.as_bytes()).unwrap();
    assert!(elements.errors.is_empty());
    let syntax = registry();
    let scope = Scope { resolver: &resolver, syntax: &syntax, file: b"main" };
    match await_function(&elements.functions[0], &scope) {
        Resolution::Ready(function) => function,
        other => panic!("expected a function, found {:?}", other),
    }
}

fn check(body: &str) -> (Function, Result<(), ParsingError>) {
    let mut function = function(body);
    let result = verify_function(&config(), &mut function, &registry());
    (function, result)
}

fn failure(body: &str) -> String {
    let before = function(body);
    let (after, result) = check(body);
    assert_eq!(after.state, CheckState::Failed);
    assert_eq!(after.code, before.code);
    assert_eq!(after.declaration, before.declaration);
    let error = result.unwrap_err();
    assert_eq!(error.file, b"main".to_vec());
    assert_eq!((error.start, error.end), (3, 7));
    String::from_utf8(error.message).unwrap()
}

#[test]
fn checked_function_has_its_slots_filled() {
    let (function, result) = check("let a = 1; let p = new Point{y: 2.5, x: a,}; p = p;");
    assert_eq!(result, Ok(()));
    assert_eq!(function.state, CheckState::Checked);
    assert_eq!(
        function.code.expressions[1].effect,
        Effects::CreateVariable(
            b"p".to_vec(),
            Box::new(Effects::CreateStruct(
                named("main::Point"),
                vec![
                    (FieldSlot { name: b"y".to_vec(), index: 1 }, Effects::Float(b"2.5".to_vec())),
                    (FieldSlot { name: b"x".to_vec(), index: 0 }, Effects::LoadVariable(b"a".to_vec())),
                ]
            ))
        )
    );
    assert_eq!(function.code.label, b"0".to_vec());
    assert_eq!(function.code.expressions.len(), 3);
}

#[test]
fn checking_twice_changes_nothing_more() {
    let body = "let p = new Point{y: 2.5, x: 1,}; { let q = p; }";
    let (once, first) = check(body);
    let (mut twice, _) = check(body);
    let second = verify_function(&config(), &mut twice, &registry());
    assert_eq!(first, Ok(()));
    assert_eq!(second, Ok(()));
    assert_eq!(twice, once);
    assert_eq!(twice.state, CheckState::Checked);

    let (once, first) = check("let a = 1; b;");
    let mut twice = function_with_unknown_variable();
    let _ = verify_function(&config(), &mut twice, &registry());
    let second = verify_function(&config(), &mut twice, &registry());
    assert!(first.is_err());
    assert_eq!(first, second);
    assert_eq!(twice, once);
    assert_eq!(twice.state, CheckState::Failed);
}

fn function_with_unknown_variable() -> Function {
    function("let a = 1; b;")
}

#[test]
fn type_failures() {
    assert_eq!(failure("a;"), "Unknown variable!");
    assert_eq!(failure("let a = { };"), "Expected a value, found void!");
    assert_eq!(failure("let a = 1; a = 2.5;"), "Mismatched types in assignment!");
    assert_eq!(failure("let a = 1; a = { };"), "Expected a value, found void!");
    assert_eq!(failure("new Point{x: 1,};"), "Wrong number of arguments!");
    assert_eq!(failure("new Point{x: 1, z: 2.5,};"), "Unknown field!");
    assert_eq!(failure("new Point{x: 1, x: 2,};"), "Field given twice!");
    assert_eq!(failure("new Point{x: 1.5, y: 2.5,};"), "Mismatched types in struct construction!");
    assert_eq!(failure("new Point{x: 1, y: { },};"), "Expected a value, found void!");
    assert_eq!(failure("1 + 2.5;"), "Invalid operation!");
    assert_eq!(failure("1.5 == 2.5;"), "Invalid operation!");
    assert_eq!(failure("- 2.5;"), "Invalid operation!");
    assert_eq!(failure("1 + { };"), "Expected a value, found void!");
    assert_eq!(failure("for i in { } { }"), "Expected a value, found void!");
}

#[test]
fn first_failure_wins() {
    assert_eq!(failure("let a = 1; a = 2.5; b;"), "Mismatched types in assignment!");
    assert_eq!(failure("b; let a = 1; a = 2.5;"), "Unknown variable!");
}

#[test]
fn variables_stay_in_their_scope() {
    assert_eq!(check("{ let a = 1; a; }").1, Ok(()));
    assert_eq!(failure("{ let a = 1; } a;"), "Unknown variable!");
    assert_eq!(check("for i in 5 { let j = i + 1; }").1, Ok(()));
    assert_eq!(failure("for i in 5 { } i;"), "Unknown variable!");
    assert_eq!(failure("for i in 5 { let j = i; } j;"), "Unknown variable!");
    assert_eq!(check("let a = 1; { a = 2; let a = 2.5; a = 3.5; } a = 4;").1, Ok(()));
}

#[test]
fn operations_follow_the_first_rule_that_fits() {
    assert_eq!(check("let a = 1 + 2; a = 3;").1, Ok(()));
    assert_eq!(check("let a = - 1; a = 3;").1, Ok(()));
    assert_eq!(check("let a = 1.5 + 2.5; a = 3.5;").1, Ok(()));
    assert_eq!(failure("let a = 1 == 2; a = 3;"), "Mismatched types in assignment!");
    let config = config();
    assert_eq!(
        config.operation(&b"+".to_vec(), &Some(named("i64")), &named("i64")),
        Some(named("i64"))
    );
    assert_eq!(config.operation(&b"-".to_vec(), &None, &named("i64")), Some(named("i64")));
    assert_eq!(config.operation(&b"-".to_vec(), &Some(named("i64")), &named("i64")), None);
    assert_eq!(config.operation(&b"*".to_vec(), &Some(named("i64")), &named("i64")), None);
}

#[test]
fn struct_must_be_known_and_resolved() {
    let with = |types: Types| {
        let mut made = function("");
        made.code.expressions.push(Expression {
            expression_type: ExpressionType::Line,
            effect: Effects::CreateStruct(types, vec![]),
        });
        let result = verify_function(&config(), &mut made, &registry());
        (made.state, result.map_err(|error| String::from_utf8(error.message).unwrap()))
    };
    assert_eq!(with(named("main::Empty")), (CheckState::Checked, Ok(())));
    assert_eq!(
        with(Types::Generic(Box::new(named("main::Empty")), vec![named("i64")])),
        (CheckState::Checked, Ok(()))
    );
    assert_eq!(with(named("main::Missing")), (CheckState::Failed, Err("Unknown struct!".to_string())));
    assert_eq!(with(named("main::helper")), (CheckState::Failed, Err("Unknown struct!".to_string())));
    assert_eq!(
        with(Types::Unresolved(b"Empty".to_vec(), Token::new(TokenTypes::Variable, 0, 5))),
        (CheckState::Failed, Err("Unresolved type!".to_string()))
    );
    assert_eq!(
        with(Types::Generic(
            Box::new(Types::Unresolved(b"Empty".to_vec(), Token::new(TokenTypes::Variable, 0, 5))),
            vec![]
        )),
        (CheckState::Failed, Err("Unresolved type!".to_string()))
    );
}

#[test]
fn deferred_failure_surfaces_in_the_check() {
    let mut made = function("");
    let error = ParsingError::new(b"other".to_vec(), 4, 9, b"Expected value, found void!".to_vec());
    made.code.expressions.push(Expression {
        expression_type: ExpressionType::Line,
        effect: Effects::Error(error.duplicate()),
    });
    assert_eq!(verify_function(&config(), &mut made, &registry()), Err(error));
    assert_eq!(made.state, CheckState::Failed);
}

#[test]
fn functions_are_checked_independently() {
    let bodies = ["let a = 1;", "b;", "new Point{y: 2.5, x: 1,};", "1 + 2.5;"];
    let alone: Vec<(Function, Result<(), ParsingError>)> = bodies.iter().map(|body| check(body)).collect();

    let forward: Vec<Function> = bodies.iter().map(|body| function(body)).collect();
    let (checked, errors) = verify_all(&config(), forward, &registry());
    assert_eq!(checked.len(), 4);
    for (index, function) in checked.iter().enumerate() {
        assert_eq!(*function, alone[index].0);
    }
    assert_eq!(
        errors,
        vec![
            alone[1].1.as_ref().unwrap_err().duplicate(),
            alone[3].1.as_ref().unwrap_err().duplicate()
        ]
    );

    let backward: Vec<Function> = bodies.iter().rev().map(|body| function(body)).collect();
    let (checked, errors) = verify_all(&config(), backward, &registry());
    for (index, function) in checked.iter().rev().enumerate() {
        assert_eq!(*function, alone[index].0);
    }
    assert_eq!(errors.len(), 2);
    assert_eq!(errors[0].message, b"Invalid operation!".to_vec());
    assert_eq!(errors[1].message, b"Unknown variable!".to_vec());
}

#[test]
fn environment_remembers_the_last_type() {
    let mut variables = CheckerVariableManager::new();
    assert_eq!(variables.get_variable(&b"a".to_vec()), None);
    variables.set_variable(b"a".to_vec(), named("i64"));
    variables.set_variable(b"b".to_vec(), named("f64"));
    variables.set_variable(b"a".to_vec(), named("bool"));
    assert_eq!(variables.get_variable(&b"a".to_vec()), Some(named("bool")));
    assert_eq!(variables.get_variable(&b"b".to_vec()), Some(named("f64")));
    variables.forget(2);
    assert_eq!(variables.get_variable(&b"a".to_vec()), Some(named("i64")));
    variables.forget(0);
    assert_eq!(variables.get_variable(&b"a".to_vec()), None);
}
