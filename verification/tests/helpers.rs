use yamlscript::helpers::{is_keyword, is_operator, is_split_character, operator_precedence};

#[test]
fn test_is_keyword() {
    assert_eq!(is_keyword("if"), true);
    assert_eq!(is_keyword("then"), true);
    assert_eq!(is_keyword("elif"), true);

    assert_eq!(is_keyword("hello"), false);
}

#[test]
fn test_is_operator() {
    assert_eq!(is_operator("="), true);
    assert_eq!(is_operator("+"), true);

    assert_eq!(is_operator("~"), false);
}

#[test]
fn test_is_split_character() {
    assert_eq!(is_split_character(' '), true);
    assert_eq!(is_split_character('\n'), true);
    assert_eq!(is_split_character('\t'), true);

    assert_eq!(is_split_character('a'), false);
}

#[test]
fn test_operator_precedence() {
    assert!(operator_precedence("*") > operator_precedence("+"));
    assert!(operator_precedence("+") < operator_precedence("/"));
    assert!(operator_precedence("hello") == -1);
}
