use lox::environment::{same_bytes, Environment, Scope};
use lox::object::Object;
use lox::runtime_error::ErrorKind;
use lox::scanner::{Token, TokenKind};

fn name(text: &str) -> Token {
    Token { kind: TokenKind::Identifier, lexeme: text.as_bytes().to_vec(), line: 7 }
}

fn number(value: f64) -> Object {
    Object::new_number(value.to_bits())
}

fn bits(found: Result<Object, lox::runtime_error::RuntimeError>) -> u64 {
    match found {
        Ok(Object::Number(bits)) => bits,
        other => panic!("{:?}", other),
    }
}

#[test]
fn same_bytes_compares_content() {
    assert!(same_bytes(b"", b""));
    assert!(same_bytes(b"abc", b"abc"));
    assert!(!same_bytes(b"abc", b"abd"));
    assert!(!same_bytes(b"abc", b"ab"));
    assert!(!same_bytes(b"", b"a"));
}

#[test]
fn scope_define_get_assign() {
    let mut scope = Scope::new();
    assert!(scope.get(b"x").is_none());
    scope.define(b"x", number(1.0));
    scope.define(b"y", number(2.0));
    assert!(matches!(scope.get(b"x"), Some(Object::Number(b)) if b == 1.0f64.to_bits()));
    scope.define(b"x", number(3.0));
    assert!(matches!(scope.get(b"x"), Some(Object::Number(b)) if b == 3.0f64.to_bits()));
    assert!(matches!(scope.get(b"y"), Some(Object::Number(b)) if b == 2.0f64.to_bits()));
    assert!(scope.assign(b"y", number(4.0)).is_none());
    assert!(matches!(scope.get(b"y"), Some(Object::Number(b)) if b == 4.0f64.to_bits()));
    assert!(matches!(scope.assign(b"z", number(5.0)), Some(Object::Number(b)) if b == 5.0f64.to_bits()));
    assert!(scope.get(b"z").is_none());
}

#[test]
fn global_scope_has_no_parent() {
    let environment = Environment::new();
    assert!(environment.is_global());
    assert!(environment.into_enclosing().is_none());
}

#[test]
fn get_of_an_undefined_name_fails() {
    let environment = Environment::new();
    let error = environment.get(&name("missing")).unwrap_err();
    assert_eq!(error.kind, ErrorKind::UndefinedVariable);
    assert_eq!(error.token.lexeme, b"missing".to_vec());
    assert_eq!(error.line(), 7);
}

#[test]
fn define_then_get() {
    let mut environment = Environment::new();
    environment.define(b"x", number(1.0));
    assert_eq!(bits(environment.get(&name("x"))), 1.0f64.to_bits());
}

#[test]
fn redefinition_replaces() {
    let mut environment = Environment::new();
    environment.define(b"x", number(1.0));
    environment.define(b"x", number(2.0));
    assert_eq!(bits(environment.get(&name("x"))), 2.0f64.to_bits());
}

#[test]
fn lookup_walks_outward() {
    let mut globals = Environment::new();
    globals.define(b"x", number(1.0));
    let inner = Environment::new_enclosed(Environment::new_enclosed(globals));
    assert!(!inner.is_global());
    assert_eq!(bits(inner.get(&name("x"))), 1.0f64.to_bits());
}

#[test]
fn inner_declaration_shadows_and_ends_with_its_scope() {
    let mut globals = Environment::new();
    globals.define(b"x", number(1.0));
    let mut inner = Environment::new_enclosed(globals);
    inner.define(b"x", number(2.0));
    inner.define(b"y", number(3.0));
    assert_eq!(bits(inner.get(&name("x"))), 2.0f64.to_bits());
    let outer = inner.into_enclosing().unwrap();
    assert_eq!(bits(outer.get(&name("x"))), 1.0f64.to_bits());
    assert!(outer.get(&name("y")).is_err());
    assert!(outer.is_global());
}

#[test]
fn define_touches_the_current_scope_only() {
    let globals = Environment::new();
    let mut inner = Environment::new_enclosed(globals);
    inner.define(b"x", number(1.0));
    let outer = inner.into_enclosing().unwrap();
    assert!(outer.get(&name("x")).is_err());
}

#[test]
fn assign_mutates_the_scope_that_owns_the_name() {
    let mut globals = Environment::new();
    globals.define(b"x", number(1.0));
    let mut inner = Environment::new_enclosed(Environment::new_enclosed(globals));
    assert!(inner.assign(&name("x"), number(2.0)).is_ok());
    assert_eq!(bits(inner.get(&name("x"))), 2.0f64.to_bits());
    let outer = inner.into_enclosing().unwrap().into_enclosing().unwrap();
    assert_eq!(bits(outer.get(&name("x"))), 2.0f64.to_bits());
}

#[test]
fn assign_prefers_the_innermost_owner() {
    let mut globals = Environment::new();
    globals.define(b"x", number(1.0));
    let mut inner = Environment::new_enclosed(globals);
    inner.define(b"x", number(2.0));
    assert!(inner.assign(&name("x"), number(3.0)).is_ok());
    assert_eq!(bits(inner.get(&name("x"))), 3.0f64.to_bits());
    let outer = inner.into_enclosing().unwrap();
    assert_eq!(bits(outer.get(&name("x"))), 1.0f64.to_bits());
}

#[test]
fn assign_never_declares() {
    let mut environment = Environment::new_enclosed(Environment::new());
    let error = environment.assign(&name("x"), number(1.0)).unwrap_err();
    assert_eq!(error.kind, ErrorKind::UndefinedVariable);
    assert_eq!(error.token.lexeme, b"x".to_vec());
    assert!(environment.get(&name("x")).is_err());
}

#[test]
fn push_and_pop_scope_in_place() {
    let mut environment = Environment::new();
    environment.define(b"x", number(1.0));
    environment.push_scope();
    environment.define(b"y", number(2.0));
    assert!(!environment.is_global());
    environment.pop_scope();
    assert!(environment.is_global());
    assert!(environment.get(&name("y")).is_err());
    environment.pop_scope();
    assert_eq!(bits(environment.get(&name("x"))), 1.0f64.to_bits());
}

#[test]
fn suspend_and_restore_locals() {
    let mut environment = Environment::new();
    environment.define(b"g", number(1.0));
    environment.push_scope();
    environment.define(b"a", number(2.0));
    let locals = environment.suspend();
    assert_eq!(locals.len(), 1);
    assert!(environment.is_global());
    assert!(environment.get(&name("a")).is_err());
    environment.define(b"g", number(5.0));
    environment.restore(locals);
    assert_eq!(bits(environment.get(&name("a"))), 2.0f64.to_bits());
    assert_eq!(bits(environment.get(&name("g"))), 5.0f64.to_bits());
}
