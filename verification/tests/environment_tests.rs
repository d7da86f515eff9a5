use lox_interp::environment::Environment;
use lox_interp::token::{Token, TokenType};
use lox_interp::value::{Native, RuntimeError, Value};

fn name(text: &str, line: usize) -> Token {
    Token::new(TokenType::Identifier, text.to_string(), None, line)
}

fn number(v: Option<Value>) -> u64 {
    match v {
        Some(Value::Number(n)) => n,
        other => panic!("{:?}", other),
    }
}

#[test]
fn a_new_environment_has_one_empty_scope() {
    let env = Environment::new();
    assert_eq!(env.len(), 1);
    assert!(env.get(0, &name("x", 1)).is_err());
}

#[test]
fn define_binds_in_the_scope_itself() {
    let mut env = Environment::new();
    let inner = env.push_scope(Some(0));
    assert_eq!(inner, 1);
    env.define(0, "x".to_string(), Some(Value::Number(1)));
    env.define(inner, "x".to_string(), Some(Value::Number(2)));
    assert_eq!(number(env.get(inner, &name("x", 1)).ok().unwrap()), 2);
    assert_eq!(number(env.get(0, &name("x", 1)).ok().unwrap()), 1);
}

#[test]
fn define_replaces_what_the_name_held() {
    let mut env = Environment::new();
    env.define(0, "x".to_string(), Some(Value::Number(1)));
    env.define(0, "y".to_string(), Some(Value::Number(5)));
    env.define(0, "x".to_string(), Some(Value::Number(2)));
    assert_eq!(number(env.get(0, &name("x", 1)).ok().unwrap()), 2);
    assert_eq!(number(env.get(0, &name("y", 1)).ok().unwrap()), 5);
}

#[test]
fn get_searches_outward() {
    let mut env = Environment::new();
    let a = env.push_scope(Some(0));
    let b = env.push_scope(Some(a));
    let other = env.push_scope(Some(0));
    env.define(0, "g".to_string(), Some(Value::Number(1)));
    env.define(a, "x".to_string(), Some(Value::Number(2)));
    assert_eq!(number(env.get(b, &name("g", 1)).ok().unwrap()), 1);
    assert_eq!(number(env.get(b, &name("x", 1)).ok().unwrap()), 2);
    assert!(env.get(other, &name("x", 1)).is_err());
    assert!(env.get(0, &name("x", 1)).is_err());
}

#[test]
fn an_undefined_name_is_an_error_with_the_line_of_the_name() {
    let env = Environment::new();
    match env.get(0, &name("missing", 9)) {
        Err(RuntimeError::Error { message, line }) => {
            assert_eq!(message, "Undefined variable 'missing'.");
            assert_eq!(line, 9);
        }
        other => panic!("{:?}", other),
    }
}

#[test]
fn assign_changes_the_nearest_binding() {
    let mut env = Environment::new();
    let a = env.push_scope(Some(0));
    let b = env.push_scope(Some(a));
    env.define(0, "x".to_string(), Some(Value::Number(1)));
    env.define(a, "x".to_string(), Some(Value::Number(2)));
    assert!(env.assign(b, &name("x", 1), Some(Value::Number(3))).is_ok());
    assert_eq!(number(env.get(b, &name("x", 1)).ok().unwrap()), 3);
    assert_eq!(number(env.get(a, &name("x", 1)).ok().unwrap()), 3);
    assert_eq!(number(env.get(0, &name("x", 1)).ok().unwrap()), 1);
    assert!(env.get(b, &name("y", 1)).is_err());
}

#[test]
fn assign_never_creates_a_binding() {
    let mut env = Environment::new();
    let a = env.push_scope(Some(0));
    match env.assign(a, &name("x", 3), Some(Value::Nil)) {
        Err(RuntimeError::Error { message, line }) => {
            assert_eq!(message, "Undefined variable 'x'.");
            assert_eq!(line, 3);
        }
        other => panic!("{:?}", other),
    }
    assert!(env.get(a, &name("x", 1)).is_err());
    assert!(env.get(0, &name("x", 1)).is_err());
}

#[test]
fn a_declared_name_may_hold_no_value() {
    let mut env = Environment::new();
    env.define(0, "x".to_string(), None);
    assert!(matches!(env.get(0, &name("x", 1)), Ok(None)));
    assert!(env.assign(0, &name("x", 1), Some(Value::Bool(true))).is_ok());
    assert!(matches!(env.get(0, &name("x", 1)), Ok(Some(Value::Bool(true)))));
}

#[test]
fn a_scope_that_does_not_exist_binds_nothing() {
    let mut env = Environment::new();
    env.define(7, "x".to_string(), Some(Value::Nil));
    assert_eq!(env.len(), 1);
    assert!(env.get(7, &name("x", 1)).is_err());
    assert!(env.get(0, &name("x", 1)).is_err());
}

#[test]
fn the_natives_are_bound_by_name() {
    let mut env = Environment::new();
    env.define_natives(0);
    let inner = env.push_scope(Some(0));
    assert!(matches!(
        env.get(inner, &name("clock", 1)),
        Ok(Some(Value::NativeFunction(Native::Clock)))
    ));
}
