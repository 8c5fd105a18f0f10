use std::collections::VecDeque;
use yamlscript::ast::{Exp, Lit, Op};
use yamlscript::errors::{LexError, YamlError};
use yamlscript::parser::Parser;

#[test]
fn test_collapse_stacks() {
    // test ast generation for `1 * (2 + 3)`
    // expected result:
    //      *
    //    /   \
    //   1     +
    //        / \
    //       2   3

    let mut parser = Parser::new();

    parser.var_stack.push_front(Exp::Lit(Lit::Number(1)));
    parser.var_stack.push_front(Exp::Lit(Lit::Number(2)));
    parser.var_stack.push_front(Exp::Lit(Lit::Number(3)));

    parser.op_stack.push_front("*".to_owned());
    parser.op_stack.push_front("(".to_owned());
    parser.op_stack.push_front("+".to_owned());
    parser.op_stack.push_front(")".to_owned());

    assert_eq!(parser.collapse_stacks(-2), Ok(()));
    assert_eq!(parser.var_stack.len(), 1);

    let expected_val = Some(Exp::BinaryOp(
        Op::Times,
        Box::new(Exp::Lit(Lit::Number(1))),
        Box::new(Exp::BinaryOp(
            Op::Plus,
            Box::new(Exp::Lit(Lit::Number(2))),
            Box::new(Exp::Lit(Lit::Number(3))),
        )),
    ));

    assert_eq!(parser.var_stack.pop_front(), expected_val);
}

#[test]
fn test_parse_error_right() {
    // test ast generation for `1 +`
    // should return error

    let mut parser = Parser::new();

    let mut variables = VecDeque::new();
    let mut operators = VecDeque::new();

    variables.push_front(Exp::Lit(Lit::Number(1)));

    operators.push_front("+".to_owned());

    let result = parser.parse_to_ast(&mut variables, &mut operators);

    assert_eq!(
        result,
        Err(YamlError::LexError(LexError::VariableStackError))
    );
}

#[test]
fn test_parse_error_operator() {
    // test ast generation for `1 2`
    // should return error

    let mut parser = Parser::new();

    let mut variables = VecDeque::new();
    let mut operators = VecDeque::new();

    variables.push_front(Exp::Lit(Lit::Number(1)));
    variables.push_front(Exp::Lit(Lit::Number(2)));

    let result = parser.parse_to_ast(&mut variables, &mut operators);
    assert_eq!(result, Err(YamlError::LexError(LexError::Incomplete)));
}

#[test]
fn test_parse_to_ast() {
    // test ast generation for `1 + !5 ^ (2 && 6) * 2`
    // expected result:
    //     +
    //   /   \
    //  1     *
    //      /   \
    //    ^       2
    //  /   \
    // !     &&
    // |    /  \
    // 5   2    6

    let mut parser = Parser::new();

    let mut variables = VecDeque::new();
    let mut operators = VecDeque::new();

    variables.push_front(Exp::Lit(Lit::Number(1)));
    variables.push_front(Exp::Lit(Lit::Number(5)));
    variables.push_front(Exp::Lit(Lit::Number(2)));
    variables.push_front(Exp::Lit(Lit::Number(6)));
    variables.push_front(Exp::Lit(Lit::Number(2)));

    operators.push_front("+".to_owned());
    operators.push_front("!".to_owned());
    operators.push_front("^".to_owned());
    operators.push_front("(".to_owned());
    operators.push_front("&&".to_owned());
    operators.push_front(")".to_owned());
    operators.push_front("*".to_owned());

    let result = parser.parse_to_ast(&mut variables, &mut operators);

    let not_tree = Exp::UnaryOp(Op::Not, Box::new(Exp::Lit(Lit::Number(5))));
    let and_tree = Exp::BinaryOp(
        Op::And,
        Box::new(Exp::Lit(Lit::Number(2))),
        Box::new(Exp::Lit(Lit::Number(6))),
    );
    let pow_tree = Exp::BinaryOp(Op::Exponent, Box::new(not_tree), Box::new(and_tree));
    let times_tree = Exp::BinaryOp(
        Op::Times,
        Box::new(pow_tree),
        Box::new(Exp::Lit(Lit::Number(2))),
    );
    let expected_val = Exp::BinaryOp(
        Op::Plus,
        Box::new(Exp::Lit(Lit::Number(1))),
        Box::new(times_tree),
    );

    assert_eq!(result, Ok(expected_val));
}

#[test]
fn test_parse_to_ast_simple() {
    // test ast generation for `1 + 2`
    // expected result:
    //    +
    //   / \
    //  1   2

    let mut parser = Parser::new();

    let mut variables = VecDeque::new();
    let mut operators = VecDeque::new();

    variables.push_front(Exp::Lit(Lit::Number(1)));
    variables.push_front(Exp::Lit(Lit::Number(2)));

    operators.push_front("+".to_owned());

    let result = parser.parse_to_ast(&mut variables, &mut operators);

    let expected_val = Ok(Exp::BinaryOp(
        Op::Plus,
        Box::new(Exp::Lit(Lit::Number(1))),
        Box::new(Exp::Lit(Lit::Number(2))),
    ));

    assert_eq!(result, expected_val);
}
