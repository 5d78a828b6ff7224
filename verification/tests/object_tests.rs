use lox::object::{Object, Rendered};
use lox::scanner::{Token, TokenKind};
use lox::stmt::Function;

const NAN: u64 = 0x7FF8_0000_0000_0000;

fn name(text: &str) -> Token {
    Token { kind: TokenKind::Identifier, lexeme: text.as_bytes().to_vec(), line: 1 }
}

fn function(text: &str, params: &[&str]) -> Object {
    Object::new_function(Function {
        name: name(text),
        params: params.iter().map(|param| name(param)).collect(),
        body: Vec::new(),
    })
}

fn number(value: f64) -> Object {
    Object::new_number(value.to_bits())
}

fn text(value: &str) -> Object {
    Object::new_string(value.to_string())
}

fn every_kind() -> Vec<Object> {
    vec![
        Object::nil(),
        Object::new_bool(true),
        Object::new_bool(false),
        number(0.0),
        number(1.0),
        Object::new_number(NAN),
        text(""),
        text("1"),
        Object::new_builtin_function(0, 0),
        function("f", &[]),
    ]
}

#[test]
fn factories_make_their_variant() {
    assert!(matches!(Object::nil(), Object::Nil));
    assert!(matches!(Object::new_bool(true), Object::Bool(true)));
    assert!(matches!(Object::new_bool(false), Object::Bool(false)));
    assert!(matches!(number(1.5), Object::Number(bits) if bits == 1.5f64.to_bits()));
    assert!(matches!(text("a"), Object::String(s) if s == "a"));
    assert!(matches!(Object::new_builtin_function(2, 7), Object::BuiltinFunction(2, 7)));
    assert!(matches!(function("f", &["a"]), Object::Function(f) if f.declaration.params.len() == 1));
}

#[test]
fn classification_is_total_and_exclusive() {
    for object in every_kind() {
        let hits = [
            object.is_nil(),
            object.is_string(),
            object.is_number(),
            object.is_bool(),
            object.is_callable(),
        ];
        assert_eq!(hits.iter().filter(|hit| **hit).count(), 1, "{:?}", object);
    }
    assert!(Object::nil().is_nil());
    assert!(text("").is_string());
    assert!(number(0.0).is_number());
    assert!(Object::new_bool(false).is_bool());
    assert!(Object::new_builtin_function(0, 0).is_callable());
    assert!(function("f", &[]).is_callable());
}

#[test]
fn as_bool_is_false_for_nil_and_false_only() {
    assert!(!Object::nil().as_bool());
    assert!(!Object::new_bool(false).as_bool());
    assert!(Object::new_bool(true).as_bool());
    assert!(number(0.0).as_bool());
    assert!(Object::new_number(NAN).as_bool());
    assert!(text("").as_bool());
    assert!(Object::new_builtin_function(0, 0).as_bool());
    assert!(function("f", &[]).as_bool());
}

#[test]
fn nan_is_not_equal_to_nan() {
    assert!(Object::new_number(NAN) != Object::new_number(NAN));
}

#[test]
fn nil_is_not_equal_to_false() {
    assert!(Object::nil() != Object::new_bool(false));
    assert!(Object::new_bool(false) != Object::nil());
}

#[test]
fn string_is_not_equal_to_number() {
    assert!(text("1") != number(1.0));
    assert!(number(1.0) != text("1"));
}

#[test]
fn equality_by_value_within_a_kind() {
    assert!(Object::nil() == Object::nil());
    assert!(Object::new_bool(true) == Object::new_bool(true));
    assert!(Object::new_bool(true) != Object::new_bool(false));
    assert!(number(1.5) == number(1.5));
    assert!(number(1.5) != number(2.5));
    assert!(number(0.0) == number(-0.0));
    assert!(text("ab") == text("ab"));
    assert!(text("ab") != text("ba"));
}

#[test]
fn callables_are_equal_to_nothing() {
    assert!(Object::new_builtin_function(1, 2) != Object::new_builtin_function(1, 2));
    assert!(function("f", &[]) != function("f", &[]));
    assert!(function("f", &[]) != Object::nil());
}

#[test]
fn different_kinds_are_never_equal() {
    let objects = every_kind();
    for (i, a) in objects.iter().enumerate() {
        for (j, b) in objects.iter().enumerate() {
            let same_kind = std::mem::discriminant(a) == std::mem::discriminant(b);
            if !same_kind {
                assert!(a != b, "{i} {j}");
            }
        }
    }
}

#[test]
fn as_number_passes_numbers_through() {
    assert_eq!(number(2.5).as_number(), 2.5f64.to_bits());
    assert_eq!(Object::new_number(NAN).as_number(), NAN);
}

#[test]
fn as_number_of_truth_values_and_nil() {
    assert_eq!(Object::new_bool(true).as_number(), 1.0f64.to_bits());
    assert_eq!(Object::new_bool(false).as_number(), 0.0f64.to_bits());
    assert_eq!(Object::nil().as_number(), 0.0f64.to_bits());
}

#[test]
fn as_number_of_a_string_is_its_byte_length() {
    assert_eq!(text("").as_number(), 0.0f64.to_bits());
    assert_eq!(text("abc").as_number(), 3.0f64.to_bits());
    assert_eq!(text("12").as_number(), 2.0f64.to_bits());
    assert_eq!(text("é").as_number(), 2.0f64.to_bits());
}

#[test]
fn as_string_of_a_string_is_its_text() {
    assert_eq!(text("hi").as_string(), Rendered::Text(b"hi".to_vec()));
    assert_eq!(text("").as_string(), Rendered::Text(Vec::new()));
}

#[test]
fn display_forms() {
    assert_eq!(Object::nil().as_string(), Rendered::Text(b"nil".to_vec()));
    assert_eq!(Object::new_bool(true).as_string(), Rendered::Text(b"true".to_vec()));
    assert_eq!(Object::new_bool(false).as_string(), Rendered::Text(b"false".to_vec()));
    assert_eq!(number(1.5).as_string(), Rendered::Number(1.5f64.to_bits()));
    assert_eq!(
        Object::new_builtin_function(0, 0).as_string(),
        Rendered::Text(b"<native fn>".to_vec())
    );
    assert_eq!(function("add", &["a", "b"]).as_string(), Rendered::Text(b"<fn add>".to_vec()));
}

#[test]
fn rendered_is_the_display_form() {
    for object in every_kind() {
        assert_eq!(object.rendered(), object.as_string());
    }
    assert_eq!(function("f", &[]).rendered(), Rendered::Text(b"<fn f>".to_vec()));
}

#[test]
fn arity_of_callables_and_others() {
    assert_eq!(Object::new_builtin_function(3, 0).arity(), 3);
    assert_eq!(function("f", &["a", "b"]).arity(), 2);
    assert_eq!(function("f", &[]).arity(), 0);
    assert_eq!(Object::nil().arity(), usize::MAX);
    assert_eq!(number(1.0).arity(), usize::MAX);
}

#[test]
fn as_nil_returns_nothing() {
    Object::nil().as_nil();
}

#[test]
fn clone_keeps_a_value() {
    for object in every_kind() {
        let copy = object.clone();
        assert_eq!(std::mem::discriminant(&copy), std::mem::discriminant(&object));
        assert_eq!(copy.rendered(), object.rendered());
        assert_eq!(copy.arity(), object.arity());
    }
}
