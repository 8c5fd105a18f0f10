use yaml_rust::yaml::Yaml;
use yaml_rust::YamlLoader;
use yamlscript::ast::Lit;
use yamlscript::environment::ASTEnvironment;
use yamlscript::yaml::{evaluate, YamlVal};

fn to_val(y: &Yaml) -> YamlVal {
    match y {
        Yaml::Real(s) => YamlVal::Real(s.clone()),
        Yaml::Integer(n) => YamlVal::Integer(*n),
        Yaml::String(s) => YamlVal::Str(s.clone()),
        Yaml::Boolean(b) => YamlVal::Boolean(*b),
        Yaml::Array(a) => YamlVal::Array(a.iter().map(to_val).collect()),
        Yaml::Hash(h) => YamlVal::Hash(h.iter().map(|(k, v)| (to_val(k), to_val(v))).collect()),
        Yaml::Alias(u) => YamlVal::Alias(*u),
        Yaml::Null => YamlVal::Null,
        Yaml::BadValue => YamlVal::BadValue,
    }
}

#[test]
fn test_yaml_eval() {
    // Test if evaluating "foo" returns 15
    let s = "
    foo:
      - '~> a := 2'
      - if:
        - '~> a == 2'
        - do:
          - '~> a = 3'
      - return: '~> a * (2 + 3)'
    ";

    let mut env = ASTEnvironment::new();
    env.set("a", Lit::Number(1));
    env.set("b", Lit::Number(2));

    let docs = YamlLoader::load_from_str(s).unwrap();
    let doc = to_val(&docs[0]["foo"]);
    assert_eq!(evaluate(&doc, &mut env), Ok(YamlVal::Integer(15)));
}

#[test]
fn test_yaml_else() {
    // Test if evaluating "foo" returns 20
    let s = "
    foo:
      - '~> a := 2'
      - if:
        - '~> a == 3'
        - do:
            - '~> a = 3'
          else:
            - '~> a = 4'
      - return: '~> a * (2 + 3)'
    ";
    let mut env = ASTEnvironment::new();
    env.set("a", Lit::Number(1));
    env.set("b", Lit::Number(2));
    let docs = YamlLoader::load_from_str(s).unwrap();
    let doc = to_val(&docs[0]["foo"]);
    assert_eq!(evaluate(&doc, &mut env), Ok(YamlVal::Integer(20)));
}

#[test]
fn test_return() {
    // Test that return doesn't execute statements after it
    let s = "
    foo:
      - return: '~> 2 * (2 + 3)'
      - '~> a := 2'
      - if:
        - '~> a == 2'
        - do:
          - '~> a = 3'
    ";
    let mut env = ASTEnvironment::new();
    env.set("a", Lit::Number(1));
    env.set("b", Lit::Number(2));
    let docs = YamlLoader::load_from_str(s).unwrap();
    let doc = to_val(&docs[0]["foo"]);
    assert_eq!(evaluate(&doc, &mut env), Ok(YamlVal::Integer(10)));
    assert_eq!(env.get("a"), Some(Lit::Number(1)));
}

#[test]
fn test_return_last_val() {
    // Test that the last value is returned as value instead of return
    let s = "
    foo:
      - '~> a := 2'
      - if:
        - '~> a == 2'
        - do:
          - '~> a = 3'
      - '~> 2 * (2 + 3)'
    ";
    let mut env = ASTEnvironment::new();
    env.set("a", Lit::Number(1));
    env.set("b", Lit::Number(2));
    let docs = YamlLoader::load_from_str(s).unwrap();
    let doc = to_val(&docs[0]["foo"]);
    assert_eq!(evaluate(&doc, &mut env), Ok(YamlVal::Integer(10)));
}

#[test]
fn test_local_variable() {
    // Test that local variable is destroyed after if
    let s = "
    foo:
      - '~> a := 2'
      - if:
        - '~> a == 2'
        - do:
          - '~> c := 2'
          - '~> a := 3'
      - '~> a * (2 + 3)'
    ";
    let mut env = ASTEnvironment::new();
    env.set("a", Lit::Number(1));
    env.set("b", Lit::Number(2));
    let docs = YamlLoader::load_from_str(s).unwrap();
    let doc = to_val(&docs[0]["foo"]);
    assert_eq!(evaluate(&doc, &mut env), Ok(YamlVal::Integer(10)));
    assert_eq!(env.get("c"), None);
}

#[test]
fn test_while_loop() {
    let s = "
    foo:
      - '~> a := 0'
      - while:
        - '~> a != 5'
        - do:
          - '~> a = a + 1'
      - '~> a'
    ";
    let mut env = ASTEnvironment::new();
    let docs = YamlLoader::load_from_str(s).unwrap();
    let doc = to_val(&docs[0]["foo"]);
    assert_eq!(evaluate(&doc, &mut env), Ok(YamlVal::Integer(5)));
    assert_eq!(env.get("a"), Some(Lit::Number(5)));
}
