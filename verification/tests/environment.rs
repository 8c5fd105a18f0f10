use yamlscript::ast::Lit;
use yamlscript::environment::ASTEnvironment;

#[test]
fn test_bad_value_empty_stack() {
    let env = ASTEnvironment::new();
    assert_eq!(env.get("Hello"), None);
}

#[test]
fn test_bad_value_nonempty_stack() {
    let mut env = ASTEnvironment::new();
    env.set("hello", Lit::Number(2));
    env.push();
    env.set("world", Lit::Number(3));
    assert_eq!(env.get("blah"), None);
}

#[test]
fn test_good_value_one_stack() {
    let mut env = ASTEnvironment::new();
    env.set("hello", Lit::Number(2));
    env.set("world", Lit::Number(3));
    assert_eq!(env.get("world"), Some(Lit::Number(3)));
}

#[test]
fn test_push_adds_environment() {
    let mut env = ASTEnvironment::new();
    env.push();
    assert_eq!(env.len(), 2);
}

#[test]
fn test_pop_removes_environment() {
    let mut env = ASTEnvironment::new();
    env.push();
    env.pop();
    assert_eq!(env.len(), 1);
}

#[test]
fn test_good_value_multiple_stacks() {
    let mut env = ASTEnvironment::new();
    env.set("hello", Lit::Number(2));
    env.push();
    env.set("world", Lit::Number(3));
    assert_eq!(env.get("hello"), Some(Lit::Number(2)));
}

#[test]
fn test_override_value() {
    let mut env = ASTEnvironment::new();
    env.set("hello", Lit::Number(2));
    env.push();
    env.set("hello", Lit::Number(3));

    assert_eq!(env.get("hello"), Some(Lit::Number(3)));

    env.pop();
    assert_eq!(env.get("hello"), Some(Lit::Number(2)));
}

#[test]
fn test_assign_sets_value_in_other_stack() {
    let mut env = ASTEnvironment::new();
    env.set("hello", Lit::Number(2));
    env.push();
    env.assign("hello", Lit::Number(3));
    env.pop();

    assert_eq!(env.get("hello"), Some(Lit::Number(3)));
}

#[test]
fn test_assign_unknown_name_is_silent() {
    let mut env = ASTEnvironment::new();
    env.assign("ghostly", Lit::Number(1));
    assert_eq!(env.get("ghostly"), None);
    assert_eq!(env.len(), 1);
}
