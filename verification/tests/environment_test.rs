use pure_lisp::environment::Environment;
use pure_lisp::syntax::Value;

fn sym(name: &str) -> Value {
    Value::Symbol(name.to_string())
}

#[test]
fn new_environment_binds_nothing() {
    let env = Environment::new();
    assert_eq!(env.lookup(&"x".to_string()), None);
    assert_eq!(env.lookup(&"".to_string()), None);
    assert_eq!(env, Environment::default());
}

#[test]
fn extend_binds_and_returns_nothing_for_a_new_name() {
    let mut env = Environment::new();
    assert_eq!(env.extend("x".to_string(), sym("a")), None);
    assert_eq!(env.lookup(&"x".to_string()), Some(&sym("a")));
    assert_eq!(env.lookup(&"y".to_string()), None);
}

#[test]
fn extend_replaces_and_returns_the_previous_value() {
    let mut env = Environment::new();
    assert_eq!(env.extend("x".to_string(), sym("a")), None);
    assert_eq!(env.extend("y".to_string(), sym("b")), None);
    assert_eq!(env.extend("x".to_string(), sym("c")), Some(sym("a")));
    assert_eq!(env.lookup(&"x".to_string()), Some(&sym("c")));
    assert_eq!(env.lookup(&"y".to_string()), Some(&sym("b")));
    assert_eq!(env.extend("x".to_string(), sym("d")), Some(sym("c")));
    assert_eq!(env.extend("y".to_string(), sym("e")), Some(sym("b")));
    assert_eq!(env.lookup(&"x".to_string()), Some(&sym("d")));
    assert_eq!(env.lookup(&"y".to_string()), Some(&sym("e")));
}

#[test]
fn lookup_among_several_bindings() {
    let mut env = Environment::new();
    env.extend("x".to_string(), sym("T"));
    env.extend("y".to_string(), sym("TARGET"));
    env.extend("z".to_string(), sym("T"));
    assert_eq!(env.lookup(&"y".to_string()), Some(&sym("TARGET")));
    assert_eq!(env.lookup(&"x".to_string()), Some(&sym("T")));
    assert_eq!(env.lookup(&"z".to_string()), Some(&sym("T")));
    assert_eq!(env.lookup(&"w".to_string()), None);
}

#[test]
fn a_copy_does_not_follow_what_it_was_copied_from() {
    let mut env = Environment::new();
    env.extend("x".to_string(), sym("a"));
    let copy = env.clone();
    env.extend("x".to_string(), sym("b"));
    env.extend("y".to_string(), sym("c"));
    assert_eq!(copy.lookup(&"x".to_string()), Some(&sym("a")));
    assert_eq!(copy.lookup(&"y".to_string()), None);
    assert_eq!(env.lookup(&"x".to_string()), Some(&sym("b")));
}

#[test]
fn names_are_compared_whole() {
    let mut env = Environment::new();
    env.extend("ab".to_string(), sym("1"));
    assert_eq!(env.lookup(&"a".to_string()), None);
    assert_eq!(env.lookup(&"abc".to_string()), None);
    assert_eq!(env.lookup(&"ab".to_string()), Some(&sym("1")));
}

#[test]
fn environments_are_equal_whatever_the_order_of_binding() {
    let mut first = Environment::new();
    first.extend("x".to_string(), sym("a"));
    first.extend("y".to_string(), sym("b"));
    let mut second = Environment::new();
    second.extend("y".to_string(), sym("b"));
    second.extend("x".to_string(), sym("a"));
    assert_eq!(first, second);
    assert!(first == second);
    second.extend("x".to_string(), sym("c"));
    assert_ne!(first, second);
    second.extend("x".to_string(), sym("a"));
    assert_eq!(first, second);
    second.extend("z".to_string(), sym("a"));
    assert_ne!(first, second);
    assert_ne!(second, first);
    assert_ne!(first, Environment::new());
}

#[test]
fn environments_with_other_names_for_the_same_values_differ() {
    let mut first = Environment::new();
    first.extend("x".to_string(), sym("a"));
    let mut second = Environment::new();
    second.extend("y".to_string(), sym("a"));
    assert_ne!(first, second);
}
