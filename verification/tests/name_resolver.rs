use raven_frontend::syntax::async_util::{get_struct, qualified, resolve_name, Resolution, Scope};
use raven_frontend::syntax::syntax::{Declaration, DeclarationKind, Syntax};
use raven_frontend::syntax::types::Types;
use raven_frontend::tokens::tokens::{Token, TokenTypes};
use raven_frontend::ImportNameResolver;

fn declaration(name: &str) -> Declaration {
    Declaration {
        name: name.as_bytes().to_vec(),
        kind: DeclarationKind::Structure,
        fields: Vec::new(),
        return_type: None,
        file: b"lib".to_vec(),
        token: Token::new(TokenTypes::Variable, 7, 10),
    }
}

fn registry(names: &[&str]) -> Syntax {
    let mut syntax = Syntax::new();
    for name in names {
        syntax.add(declaration(name)).unwrap();
    }
    syntax
}

#[test]
fn new_resolver_searches_its_own_file() {
    let resolver = ImportNameResolver::new(b"main".to_vec());
    assert_eq!(resolver.imports(), &vec![b"main".to_vec()]);
    assert!(resolver.generics().is_empty());
    assert_eq!(resolver.parent, None);
    assert_eq!(resolver.last_id, 0);
}

#[test]
fn generic_finds_the_first_binding() {
    let mut resolver = ImportNameResolver::new(b"main".to_vec());
    resolver.generics.push((b"T".to_vec(), vec![Types::Struct(b"Number".to_vec())]));
    resolver.generics.push((b"T".to_vec(), vec![]));
    assert_eq!(resolver.generic(&b"T".to_vec()), Some(vec![Types::Struct(b"Number".to_vec())]));
    assert_eq!(resolver.generic(&b"U".to_vec()), None);
}

#[test]
fn boxed_clone_is_independent() {
    let mut resolver = ImportNameResolver::new(b"main".to_vec());
    resolver.parent = Some(b"Outer".to_vec());
    resolver.last_id = 7;
    resolver.generics.push((b"T".to_vec(), vec![Types::Struct(b"Number".to_vec())]));
    let mut copy = resolver.boxed_clone();
    assert_eq!(copy.imports, resolver.imports);
    assert_eq!(copy.generics, resolver.generics);
    assert_eq!(copy.parent, resolver.parent);
    assert_eq!(copy.last_id, 7);
    copy.imports.push(b"extra".to_vec());
    assert_eq!(resolver.imports.len(), 1);
}

#[test]
fn qualified_joins_with_two_colons() {
    assert_eq!(qualified(b"main", b"Foo"), b"main::Foo".to_vec());
    assert_eq!(qualified(b"", b""), b"::".to_vec());
}

#[test]
fn earlier_import_shadows_later() {
    let mut resolver = ImportNameResolver::new(b"main".to_vec());
    resolver.imports.push(b"first".to_vec());
    resolver.imports.push(b"second".to_vec());
    let syntax = registry(&["second::Foo", "first::Foo"]);
    let scope = Scope { resolver: &resolver, syntax: &syntax, file: b"main" };
    assert_eq!(resolve_name(&scope, &b"Foo".to_vec()), Some(b"first::Foo".to_vec()));
    let syntax = registry(&["second::Foo", "first::Foo", "main::Foo"]);
    let scope = Scope { resolver: &resolver, syntax: &syntax, file: b"main" };
    assert_eq!(resolve_name(&scope, &b"Foo".to_vec()), Some(b"main::Foo".to_vec()));
}

#[test]
fn generics_parent_and_bare_names_come_after_imports() {
    let mut resolver = ImportNameResolver::new(b"main".to_vec());
    resolver.generics.push((b"T".to_vec(), vec![]));
    resolver.parent = Some(b"main::Outer".to_vec());
    let syntax = registry(&["main::Outer::Inner", "u64", "T", "Inner"]);
    let scope = Scope { resolver: &resolver, syntax: &syntax, file: b"main" };
    assert_eq!(resolve_name(&scope, &b"T".to_vec()), Some(b"T".to_vec()));
    assert_eq!(resolve_name(&scope, &b"Inner".to_vec()), Some(b"main::Outer::Inner".to_vec()));
    assert_eq!(resolve_name(&scope, &b"u64".to_vec()), Some(b"u64".to_vec()));
    assert_eq!(resolve_name(&scope, &b"Missing".to_vec()), None);
}

#[test]
fn lookup_waits_then_fails() {
    let resolver = ImportNameResolver::new(b"main".to_vec());
    let token = Token::new(TokenTypes::Variable, 4, 7);
    let mut syntax = registry(&["other::Foo"]);
    {
        let scope = Scope { resolver: &resolver, syntax: &syntax, file: b"main" };
        assert_eq!(
            get_struct(&scope, &b"Foo".to_vec(), &token),
            Resolution::Waiting(b"Foo".to_vec())
        );
    }
    syntax.finish();
    let scope = Scope { resolver: &resolver, syntax: &syntax, file: b"main" };
    match get_struct(&scope, &b"Foo".to_vec(), &token) {
        Resolution::Failed(error) => {
            assert_eq!(error.file, b"main".to_vec());
            assert_eq!((error.start, error.end), (4, 7));
            assert_eq!(error.message, b"Unresolved symbol: Foo".to_vec());
        }
        other => panic!("expected a failure, found {:?}", other),
    }
}

#[test]
fn duplicate_definition_is_refused() {
    let mut syntax = registry(&["main::Foo"]);
    let error = syntax.add(declaration("main::Foo")).unwrap_err();
    assert_eq!(error.message, b"Duplicate definition!".to_vec());
    assert_eq!(error.file, b"lib".to_vec());
    assert_eq!((error.start, error.end), (7, 10));
    assert_eq!(syntax.declarations.len(), 1);
    assert!(syntax.contains(b"main::Foo"));
    assert!(!syntax.contains(b"main::Bar"));
    assert_eq!(syntax.find(b"main::Foo"), Some(0));
    assert_eq!(syntax.get(b"main::Foo").map(|found| found.name.clone()), Some(b"main::Foo".to_vec()));
    assert!(syntax.get(b"main").is_none());
    assert!(!syntax.finished);
}
