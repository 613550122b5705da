use codecrafters_interpreter::environment::Environment;
use codecrafters_interpreter::interpreter::Exit;
use codecrafters_interpreter::token::{LiteralKind, Token, TokenKind};

fn name(text: &str, line: usize) -> Token {
    Token::new(TokenKind::Identifier, text.to_string(), LiteralKind::Nil, line)
}

fn message(exit: Exit) -> String {
    match exit {
        Exit::RuntimeError(fault) => fault.report(),
        Exit::Return(_) => panic!("unexpected return"),
    }
}

#[test]
fn a_defined_variable_can_be_read() {
    let mut environment = Environment::new();
    environment.define("a".to_string(), LiteralKind::Bool(true));
    assert_eq!(environment.get(&name("a", 1)).unwrap(), LiteralKind::Bool(true));
}

#[test]
fn defining_again_replaces_the_value() {
    let mut environment = Environment::new();
    environment.define("a".to_string(), LiteralKind::Bool(true));
    environment.define("b".to_string(), LiteralKind::Nil);
    environment.define("a".to_string(), LiteralKind::String("x".to_string()));
    assert_eq!(environment.get(&name("a", 1)).unwrap(), LiteralKind::String("x".to_string()));
    assert_eq!(environment.get(&name("b", 1)).unwrap(), LiteralKind::Nil);
}

#[test]
fn an_undefined_variable_is_a_runtime_error() {
    let environment = Environment::new();
    let exit = environment.get(&name("missing", 7)).unwrap_err();
    assert_eq!(message(exit), "[line 7] Error: Undefined variable 'missing'.");
}

#[test]
fn assignment_needs_a_binding() {
    let mut environment = Environment::new();
    let exit = environment.assign(&name("a", 2), LiteralKind::Nil).unwrap_err();
    assert_eq!(message(exit), "[line 2] Error: Undefined variable 'a'.");
    assert!(environment.get(&name("a", 2)).is_err());
}

#[test]
fn lookup_and_assignment_reach_the_innermost_binding() {
    let mut outer = Environment::new();
    outer.define("a".to_string(), LiteralKind::Number("1".to_string()));
    outer.define("b".to_string(), LiteralKind::Number("2".to_string()));
    let mut inner = Environment::new_with_enclosing(outer);
    assert!(inner.has_enclosing());
    inner.define("a".to_string(), LiteralKind::Number("10".to_string()));
    assert_eq!(inner.get(&name("a", 1)).unwrap(), LiteralKind::Number("10".to_string()));
    assert_eq!(inner.get(&name("b", 1)).unwrap(), LiteralKind::Number("2".to_string()));
    inner.assign(&name("a", 1), LiteralKind::Number("11".to_string())).unwrap();
    inner.assign(&name("b", 1), LiteralKind::Number("3".to_string())).unwrap();
    assert_eq!(inner.get(&name("a", 1)).unwrap(), LiteralKind::Number("11".to_string()));

    let outer = inner.into_enclosing().unwrap();
    assert!(!outer.has_enclosing());
    assert_eq!(outer.get(&name("a", 1)).unwrap(), LiteralKind::Number("1".to_string()));
    assert_eq!(outer.get(&name("b", 1)).unwrap(), LiteralKind::Number("3".to_string()));
    assert!(outer.into_enclosing().is_none());
}

#[test]
fn a_name_of_a_block_is_gone_after_the_block() {
    let outer = Environment::new();
    let mut inner = Environment::new_with_enclosing(outer);
    inner.define("local".to_string(), LiteralKind::Bool(false));
    assert!(inner.get(&name("local", 1)).is_ok());
    let outer = inner.into_enclosing().unwrap();
    assert!(outer.get(&name("local", 1)).is_err());
}
