use yamlscript::ast::lit::Decimal;
use yamlscript::ast::{Exp, Lit, Op};
use yamlscript::environment::ASTEnvironment;

#[test]
fn exp_test_arith_ast() {
    // Test that the result for ast:
    //      *
    //    /   \
    //   5     +
    //       /   \
    //      -     6
    //    /   \
    //   3     2
    // is "35"

    let mut env = ASTEnvironment::new();

    let sub_tree = Exp::BinaryOp(
        Op::Minus,
        Box::new(Exp::Lit(Lit::Number(3))),
        Box::new(Exp::Lit(Lit::Number(2))),
    );
    let add_tree = Exp::BinaryOp(
        Op::Plus,
        Box::new(sub_tree),
        Box::new(Exp::Lit(Lit::Number(6))),
    );
    let times_tree = Exp::BinaryOp(
        Op::Times,
        Box::new(Exp::Lit(Lit::Number(5))),
        Box::new(add_tree),
    );

    assert_eq!(times_tree.eval(&mut env), Ok(Exp::Lit(Lit::Number(35))));
}

#[test]
fn exp_test_variable_ast() {
    // Test that the result for ast:
    //      *
    //    /   \
    //   a     +
    //       /   \
    //      -     d
    //    /   \
    //   b     c
    // is "35" when a is 5, b is 3, c is 2, and d is 6

    let mut env = ASTEnvironment::new();
    env.set("a", Lit::Number(5));
    env.set("b", Lit::Number(3));
    env.set("c", Lit::Number(2));
    env.set("d", Lit::Number(6));

    let (a, b, c, d) = (
        "a".to_owned(),
        "b".to_owned(),
        "c".to_owned(),
        "d".to_owned(),
    );
    let sub_tree = Exp::BinaryOp(
        Op::Minus,
        Box::new(Exp::Variable(b)),
        Box::new(Exp::Variable(c)),
    );
    let add_tree = Exp::BinaryOp(Op::Plus, Box::new(sub_tree), Box::new(Exp::Variable(d)));
    let times_tree = Exp::BinaryOp(Op::Times, Box::new(Exp::Variable(a)), Box::new(add_tree));

    assert_eq!(times_tree.eval(&mut env), Ok(Exp::Lit(Lit::Number(35))));
}

#[test]
fn exp_test_float_ast() {
    // Test that the result for ast:
    //      *
    //    /   \
    //   a     +
    //       /   \
    //      -     c
    //    /   \
    //   1.5   b
    // is "27.5" when a is 5, b is 2, and c is 6

    let mut env = ASTEnvironment::new();
    env.set("a", Lit::Number(5));
    env.set("b", Lit::Number(2));
    env.set("c", Lit::Number(6));

    let (a, b, c) = ("a".to_owned(), "b".to_owned(), "c".to_owned());

    let sub_tree = Exp::BinaryOp(
        Op::Minus,
        Box::new(Exp::Lit(Lit::Decimal(Decimal { units: 15, scale: 1 }))),
        Box::new(Exp::Variable(b)),
    );
    let add_tree = Exp::BinaryOp(Op::Plus, Box::new(sub_tree), Box::new(Exp::Variable(c)));
    let times_tree = Exp::BinaryOp(Op::Times, Box::new(Exp::Variable(a)), Box::new(add_tree));

    assert_eq!(
        times_tree.eval(&mut env),
        Ok(Exp::Lit(Lit::Decimal(Decimal { units: 275, scale: 1 })))
    );
}

#[test]
fn exp_test_declare_assign() {
    // Test that evaluating ast:
    //     :=
    //    /  \
    //   x    *
    //       / \
    //      10  +
    //         / \
    //        2  3
    // results in x being bound to 50 in the current scope
    // then after pushing a new scope and evaluating ast:
    //    =
    //   / \
    //  x   +
    //     / \
    //    1   2
    // results in x being set to 3 in the original scope

    let mut env = ASTEnvironment::new();
    let add_tree = Exp::BinaryOp(
        Op::Plus,
        Box::new(Exp::Lit(Lit::Number(2))),
        Box::new(Exp::Lit(Lit::Number(3))),
    );
    let times_tree = Exp::BinaryOp(
        Op::Times,
        Box::new(Exp::Lit(Lit::Number(10))),
        Box::new(add_tree),
    );
    let declare_tree = Exp::Declare("x".to_owned(), Box::new(times_tree));

    assert_eq!(declare_tree.eval(&mut env), Ok(Exp::Lit(Lit::Number(50))));
    assert_eq!(env.get("x"), Some(Lit::Number(50)));

    env.push();

    let add_tree = Exp::BinaryOp(
        Op::Plus,
        Box::new(Exp::Lit(Lit::Number(1))),
        Box::new(Exp::Lit(Lit::Number(2))),
    );
    let assign_tree = Exp::Assign("x".to_owned(), Box::new(add_tree));

    assert_eq!(assign_tree.eval(&mut env), Ok(Exp::Lit(Lit::Number(3))));

    env.pop();
    assert_eq!(env.get("x"), Some(Lit::Number(3)));
}

#[test]
fn exp_test_equality() {
    let mut env = ASTEnvironment::new();

    // Test number equality

    let ast = Exp::BinaryOp(
        Op::Equal,
        Box::new(Exp::Lit(Lit::Number(5))),
        Box::new(Exp::Lit(Lit::Number(5))),
    );
    assert_eq!(ast.eval(&mut env), Ok(Exp::Lit(Lit::Bool(true))));

    let ast = Exp::BinaryOp(
        Op::Equal,
        Box::new(Exp::Lit(Lit::Number(5))),
        Box::new(Exp::Lit(Lit::Number(4))),
    );
    assert_eq!(ast.eval(&mut env), Ok(Exp::Lit(Lit::Bool(false))));

    // Test decimal equality

    let ast = Exp::BinaryOp(
        Op::Equal,
        Box::new(Exp::Lit(Lit::Decimal(Decimal { units: 256, scale: 2 }))),
        Box::new(Exp::Lit(Lit::Decimal(Decimal { units: 256, scale: 2 }))),
    );
    assert_eq!(ast.eval(&mut env), Ok(Exp::Lit(Lit::Bool(true))));

    let ast = Exp::BinaryOp(
        Op::Equal,
        Box::new(Exp::Lit(Lit::Decimal(Decimal { units: 256, scale: 2 }))),
        Box::new(Exp::Lit(Lit::Decimal(Decimal { units: 255, scale: 2 }))),
    );
    assert_eq!(ast.eval(&mut env), Ok(Exp::Lit(Lit::Bool(false))));

    // Test string equality

    let ast = Exp::BinaryOp(
        Op::Equal,
        Box::new(Exp::Lit(Lit::Str("Hello".to_owned()))),
        Box::new(Exp::Lit(Lit::Str("Hello".to_owned()))),
    );
    assert_eq!(ast.eval(&mut env), Ok(Exp::Lit(Lit::Bool(true))));

    let ast = Exp::BinaryOp(
        Op::Equal,
        Box::new(Exp::Lit(Lit::Str("Hello".to_owned()))),
        Box::new(Exp::Lit(Lit::Str("hello".to_owned()))),
    );
    assert_eq!(ast.eval(&mut env), Ok(Exp::Lit(Lit::Bool(false))));
}

#[test]
fn exp_test_boolean_operators() {
    let mut env = ASTEnvironment::new();

    // Test and operator

    let ast = Exp::BinaryOp(
        Op::And,
        Box::new(Exp::Lit(Lit::Bool(true))),
        Box::new(Exp::Lit(Lit::Bool(true))),
    );
    assert_eq!(ast.eval(&mut env), Ok(Exp::Lit(Lit::Bool(true))));

    let ast = Exp::BinaryOp(
        Op::And,
        Box::new(Exp::Lit(Lit::Bool(true))),
        Box::new(Exp::Lit(Lit::Bool(false))),
    );
    assert_eq!(ast.eval(&mut env), Ok(Exp::Lit(Lit::Bool(false))));

    // Test or operator

    let ast = Exp::BinaryOp(
        Op::Or,
        Box::new(Exp::Lit(Lit::Bool(true))),
        Box::new(Exp::Lit(Lit::Bool(false))),
    );
    assert_eq!(ast.eval(&mut env), Ok(Exp::Lit(Lit::Bool(true))));

    let ast = Exp::BinaryOp(
        Op::Or,
        Box::new(Exp::Lit(Lit::Bool(false))),
        Box::new(Exp::Lit(Lit::Bool(false))),
    );
    assert_eq!(ast.eval(&mut env), Ok(Exp::Lit(Lit::Bool(false))));
}
