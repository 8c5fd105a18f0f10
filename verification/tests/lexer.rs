use std::collections::VecDeque;
use yamlscript::ast::lit::Decimal;
use yamlscript::ast::{Exp, Lit};
use yamlscript::lexer::Lexer;

#[test]
fn mod_test_no_paren() {
    let s = "a+2-b+3";
    let mut lexer = Lexer::new();
    assert_eq!(lexer.parse_string(s), Ok(()));

    let variable_result: VecDeque<Exp> = vec![
        Exp::Variable("a".to_owned()),
        Exp::Lit(Lit::Number(2)),
        Exp::Variable("b".to_owned()),
        Exp::Lit(Lit::Number(3)),
    ]
    .into_iter()
    .rev()
    .collect();
    assert_eq!(lexer.state.variables, variable_result);

    let operator_result: VecDeque<String> = vec!["+", "-", "+"]
        .into_iter()
        .rev()
        .map(|s| s.to_owned())
        .collect();
    assert_eq!(lexer.state.operators, operator_result);
}

#[test]
fn mod_test_paren() {
    let s = "(a+(2-b)+(3*5))";
    let mut lexer = Lexer::new();
    assert_eq!(lexer.parse_string(s), Ok(()));

    let variable_result: VecDeque<Exp> = vec![
        Exp::Variable("a".to_owned()),
        Exp::Lit(Lit::Number(2)),
        Exp::Variable("b".to_owned()),
        Exp::Lit(Lit::Number(3)),
        Exp::Lit(Lit::Number(5)),
    ]
    .into_iter()
    .rev()
    .collect();
    assert_eq!(lexer.state.variables, variable_result);

    let operator_result: VecDeque<String> = vec!["(", "+", "(", "-", ")", "+", "(", "*", ")", ")"]
        .into_iter()
        .rev()
        .map(|s| s.to_owned())
        .collect();
    assert_eq!(lexer.state.operators, operator_result);
}

#[test]
fn mod_test_equals() {
    let s = "(a==(2-b)+(3!=5))";
    let mut lexer = Lexer::new();
    assert_eq!(lexer.parse_string(s), Ok(()));

    let variable_result: VecDeque<Exp> = vec![
        Exp::Variable("a".to_owned()),
        Exp::Lit(Lit::Number(2)),
        Exp::Variable("b".to_owned()),
        Exp::Lit(Lit::Number(3)),
        Exp::Lit(Lit::Number(5)),
    ]
    .into_iter()
    .rev()
    .collect();
    assert_eq!(lexer.state.variables, variable_result);

    let operator_result: VecDeque<String> =
        vec!["(", "==", "(", "-", ")", "+", "(", "!=", ")", ")"]
            .into_iter()
            .rev()
            .map(|s| s.to_owned())
            .collect();
    assert_eq!(lexer.state.operators, operator_result);
}

#[test]
fn mod_test_spaces() {
    let s = "( a + 2 - \t b \t^ 2 ) == 5";
    let mut lexer = Lexer::new();
    assert_eq!(lexer.parse_string(s), Ok(()));

    let variable_result: VecDeque<Exp> = vec![
        Exp::Variable("a".to_owned()),
        Exp::Lit(Lit::Number(2)),
        Exp::Variable("b".to_owned()),
        Exp::Lit(Lit::Number(2)),
        Exp::Lit(Lit::Number(5)),
    ]
    .into_iter()
    .rev()
    .collect();
    assert_eq!(lexer.state.variables, variable_result);

    let operator_result: VecDeque<String> = vec!["(", "+", "-", "^", ")", "=="]
        .into_iter()
        .rev()
        .map(|s| s.to_owned())
        .collect();
    assert_eq!(lexer.state.operators, operator_result);
}

#[test]
fn mod_test_strings() {
    let s = "( \"Hello world1234 + \" + \"bye123\" )";
    let mut lexer = Lexer::new();
    assert_eq!(lexer.parse_string(s), Ok(()));

    let variable_result: VecDeque<Exp> = vec![
        Exp::Lit(Lit::Str("Hello world1234 + ".to_owned())),
        Exp::Lit(Lit::Str("bye123".to_owned())),
    ]
    .into_iter()
    .rev()
    .collect();
    assert_eq!(lexer.state.variables, variable_result);

    let operator_result: VecDeque<String> = vec!["(", "+", ")"]
        .into_iter()
        .rev()
        .map(|s| s.to_owned())
        .collect();
    assert_eq!(lexer.state.operators, operator_result);
}

#[test]
fn mod_test_float() {
    let s = "1.23 - 3.12 + 123.45678";
    let mut lexer = Lexer::new();
    assert_eq!(lexer.parse_string(s), Ok(()));

    let variable_result: VecDeque<Exp> = vec![
        Exp::Lit(Lit::Decimal(Decimal { units: 123, scale: 2 })),
        Exp::Lit(Lit::Decimal(Decimal { units: 312, scale: 2 })),
        Exp::Lit(Lit::Decimal(Decimal {
            units: 12345678,
            scale: 5,
        })),
    ]
    .into_iter()
    .rev()
    .collect();
    assert_eq!(lexer.state.variables, variable_result);
}
