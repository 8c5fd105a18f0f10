use yamlscript::appliers::{apply_arithmetic_operator, VariableApplier};
use yamlscript::ast::lit::Decimal;
use yamlscript::ast::{Exp, Lit, Op};
use yamlscript::environment::ASTEnvironment;
use yamlscript::errors::{EvalError, LexError, YamlError};
use yamlscript::ffi_types::Error;
use yamlscript::lexer::Lexer;
use yamlscript::parser::Parser;
use yamlscript::yaml::{evaluate, YamlVal};

fn eval_str(s: &str, env: &mut ASTEnvironment) -> Result<Exp, YamlError> {
    let mut lexer = Lexer::new();
    lexer.parse_string(s)?;
    let mut parser = Parser::new();
    let ast = parser.parse_to_ast(&mut lexer.state.variables, &mut lexer.state.operators)?;
    ast.eval(env)
}

#[test]
fn test_pipeline_precedence() {
    let mut env = ASTEnvironment::new();
    assert_eq!(
        eval_str("1 + 2 * 3", &mut env),
        Ok(Exp::Lit(Lit::Number(7)))
    );
    assert_eq!(
        eval_str("1 + (2 * 3)", &mut env),
        Ok(Exp::Lit(Lit::Number(7)))
    );
    assert_eq!(
        eval_str("(1 + 2) * 3", &mut env),
        Ok(Exp::Lit(Lit::Number(9)))
    );
}

#[test]
fn test_pipeline_decimal() {
    let mut env = ASTEnvironment::new();
    assert_eq!(
        eval_str("1.5 - 2 + 6", &mut env),
        Ok(Exp::Lit(Lit::Decimal(Decimal { units: 55, scale: 1 })))
    );
}

#[test]
fn test_empty_expression_fails() {
    let mut env = ASTEnvironment::new();
    assert_eq!(
        eval_str("", &mut env),
        Err(YamlError::LexError(LexError::ResultNotLiteral))
    );
}

#[test]
fn test_whitespace_expression_fails() {
    let mut env = ASTEnvironment::new();
    assert_eq!(
        eval_str("  \t ", &mut env),
        Err(YamlError::LexError(LexError::ResultNotLiteral))
    );
}

#[test]
fn test_unmatched_quote_fails() {
    let mut env = ASTEnvironment::new();
    let mut lexer = Lexer::new();
    assert_eq!(
        lexer.parse_string("\"abc"),
        Err(YamlError::LexError(LexError::Incomplete))
    );
    assert!(eval_str("\"abc + 1", &mut env).is_err());
}

#[test]
fn test_unbalanced_parens_fail() {
    let mut env = ASTEnvironment::new();
    assert_eq!(
        eval_str("(1 + 2", &mut env),
        Err(YamlError::LexError(LexError::ParenthesisNotMatch))
    );
    assert_eq!(
        eval_str("1 + 2)", &mut env),
        Err(YamlError::LexError(LexError::ParenthesisNotMatch))
    );
}

#[test]
fn test_letter_after_number_fails() {
    let mut env = ASTEnvironment::new();
    assert_eq!(
        eval_str("12Hello", &mut env),
        Err(YamlError::LexError(LexError::LetterAfterNumber))
    );
}

#[test]
fn test_invalid_dot_fails() {
    let mut env = ASTEnvironment::new();
    assert_eq!(
        eval_str("1.00.2", &mut env),
        Err(YamlError::LexError(LexError::InvalidDotAppend))
    );
}

#[test]
fn test_unknown_operator_fails() {
    let mut env = ASTEnvironment::new();
    assert_eq!(
        eval_str("1 ~ 2", &mut env),
        Err(YamlError::LexError(LexError::UnknownOperator))
    );
}

#[test]
fn test_assign_to_non_variable_fails() {
    let mut env = ASTEnvironment::new();
    assert_eq!(
        eval_str("2 := 3", &mut env),
        Err(YamlError::LexError(LexError::NameNotString))
    );
}

#[test]
fn test_division_by_zero_errors() {
    let mut env = ASTEnvironment::new();
    assert_eq!(
        eval_str("1 / 0", &mut env),
        Err(YamlError::EvalError(EvalError::DivisionByZero(
            Op::Divide,
            Lit::Number(1),
            Lit::Number(0)
        )))
    );
    assert_eq!(
        eval_str("1 % 0", &mut env),
        Err(YamlError::EvalError(EvalError::DivisionByZero(
            Op::Modulo,
            Lit::Number(1),
            Lit::Number(0)
        )))
    );
}

#[test]
fn test_integer_division_truncates() {
    let mut env = ASTEnvironment::new();
    assert_eq!(eval_str("7 / 2", &mut env), Ok(Exp::Lit(Lit::Number(3))));
    assert_eq!(eval_str("0 - 7 / 2", &mut env), Ok(Exp::Lit(Lit::Number(-3))));
    assert_eq!(eval_str("7 % 2", &mut env), Ok(Exp::Lit(Lit::Number(1))));
}

#[test]
fn test_exponent() {
    let mut env = ASTEnvironment::new();
    assert_eq!(eval_str("2 ^ 10", &mut env), Ok(Exp::Lit(Lit::Number(1024))));
    assert_eq!(eval_str("2 ^ 0", &mut env), Ok(Exp::Lit(Lit::Number(1))));
    // an exact result beyond 32 bits reports overflow instead of wrapping
    assert_eq!(
        eval_str("2 ^ 40", &mut env),
        Err(YamlError::EvalError(EvalError::Overflow(
            Op::Exponent,
            Lit::Number(2),
            Lit::Number(40)
        )))
    );
}

#[test]
fn test_invalid_operand_types() {
    let mut env = ASTEnvironment::new();
    assert_eq!(
        eval_str("\"hello\" - \"world\"", &mut env),
        Err(YamlError::EvalError(EvalError::InvalidBinOp(
            Op::Minus,
            Lit::Str("hello".to_owned()),
            Lit::Str("world".to_owned())
        )))
    );
    assert!(matches!(
        eval_str("!5", &mut env),
        Err(YamlError::EvalError(EvalError::InvalidUnOp(Op::Not, _)))
    ));
}

#[test]
fn test_string_concatenation() {
    let mut env = ASTEnvironment::new();
    assert_eq!(
        eval_str("\"foo\" + \"bar\"", &mut env),
        Ok(Exp::Lit(Lit::Str("foobar".to_owned())))
    );
}

#[test]
fn test_variable_not_in_env() {
    let mut env = ASTEnvironment::new();
    assert_eq!(
        eval_str("nowhere + 1", &mut env),
        Err(YamlError::EvalError(EvalError::VarNotInEnv(
            "nowhere".to_owned()
        )))
    );
}

#[test]
fn test_comparison_and_logic() {
    let mut env = ASTEnvironment::new();
    assert_eq!(eval_str("1 == 1", &mut env), Ok(Exp::Lit(Lit::Bool(true))));
    assert_eq!(eval_str("1 != 1", &mut env), Ok(Exp::Lit(Lit::Bool(false))));
    // mismatched types compare unequal rather than erroring
    assert_eq!(
        eval_str("1 == \"1\"", &mut env),
        Ok(Exp::Lit(Lit::Bool(false)))
    );
    assert_eq!(
        eval_str("1 == 1 && 2 == 2", &mut env),
        Ok(Exp::Lit(Lit::Bool(true)))
    );
    assert_eq!(
        eval_str("1 == 2 || 3 == 3", &mut env),
        Ok(Exp::Lit(Lit::Bool(true)))
    );
    assert_eq!(eval_str("!(1 == 2)", &mut env), Ok(Exp::Lit(Lit::Bool(true))));
}

#[test]
fn test_decimal_division_exact() {
    let mut env = ASTEnvironment::new();
    // 1 / 0.4 has the exact decimal expansion 2.5
    assert_eq!(
        eval_str("1 / 0.4", &mut env),
        Ok(Exp::Lit(Lit::Decimal(Decimal { units: 25, scale: 1 })))
    );
    // 1 / 0.3 has no finite decimal expansion: the exact model refuses
    assert!(matches!(
        eval_str("1 / 0.3", &mut env),
        Err(YamlError::EvalError(EvalError::Overflow(Op::Divide, _, _)))
    ));
}

#[test]
fn test_decimal_normalization() {
    let mut env = ASTEnvironment::new();
    // 1.5 + 2.5 is refused: decimals mix only with numbers
    assert!(matches!(
        eval_str("1.5 + 2.5", &mut env),
        Err(YamlError::EvalError(EvalError::InvalidBinOp(Op::Plus, _, _)))
    ));
    // 0.5 * 2 == 1.0, held canonically as the integer 1
    assert_eq!(
        eval_str("0.5 * 2", &mut env),
        Ok(Exp::Lit(Lit::Decimal(Decimal { units: 1, scale: 0 })))
    );
}

#[test]
fn test_number_literal_overflow_reads_zero() {
    let mut env = ASTEnvironment::new();
    // a literal beyond 32 bits falls back to zero, like an unparseable one
    assert_eq!(
        eval_str("9999999999 + 1", &mut env),
        Ok(Exp::Lit(Lit::Number(1)))
    );
}

#[test]
fn test_decimal_to_text() {
    assert_eq!(Decimal { units: 275, scale: 1 }.to_text(), "27.5");
    assert_eq!(Decimal { units: 2, scale: 0 }.to_text(), "2");
    assert_eq!(Decimal { units: -5, scale: 1 }.to_text(), "-0.5");
    assert_eq!(Decimal { units: 105, scale: 2 }.to_text(), "1.05");
}

#[test]
fn test_sigil_splits_at_first() {
    // the first `~>` divides sigil from expression
    let mut env = ASTEnvironment::new();
    let doc = YamlVal::Str("result ~> 1 + 2".to_owned());
    assert_eq!(evaluate(&doc, &mut env), Ok(YamlVal::Integer(3)));
}

#[test]
fn test_yaml_decimal_result_renders() {
    let mut env = ASTEnvironment::new();
    let doc = YamlVal::Str("~> 1.5 + 4".to_owned());
    assert_eq!(evaluate(&doc, &mut env), Ok(YamlVal::Real("5.5".to_owned())));
}

#[test]
fn test_yaml_plain_string_passes_through() {
    let mut env = ASTEnvironment::new();
    let doc = YamlVal::Str("no expression here".to_owned());
    assert_eq!(
        evaluate(&doc, &mut env),
        Ok(YamlVal::Str("no expression here".to_owned()))
    );
}

#[test]
fn test_yaml_predicate_error_aborts() {
    let mut env = ASTEnvironment::new();
    let inner = YamlVal::Hash(vec![(
        YamlVal::Str("do".to_owned()),
        YamlVal::Array(vec![YamlVal::Str("~> 1".to_owned())]),
    )]);
    let doc = YamlVal::Hash(vec![(
        YamlVal::Str("if".to_owned()),
        YamlVal::Array(vec![YamlVal::Str("~> nope == 1".to_owned()), inner]),
    )]);
    assert_eq!(
        evaluate(&doc, &mut env),
        Err(YamlError::EvalError(EvalError::VarNotInEnv(
            "nope".to_owned()
        )))
    );
}

#[test]
fn test_apply_arithmetic_operator() {
    assert_eq!(apply_arithmetic_operator("+", 2, 3), 5);
    assert_eq!(apply_arithmetic_operator("-", 2, 3), -1);
    assert_eq!(apply_arithmetic_operator("*", 4, 3), 12);
    assert_eq!(apply_arithmetic_operator("/", 7, 2), 3);
    assert_eq!(apply_arithmetic_operator("%", 7, 2), 1);
}

#[test]
fn test_variable_applier_holds_name() {
    let v = VariableApplier::new("velocity");
    assert_eq!(v.name(), "velocity");
}

#[test]
fn test_ffi_error_codes() {
    assert_eq!(Error::Success.code(), 0);
    assert_eq!(Error::WrongType.code(), -1);
    assert_eq!(Error::NotDefined.code(), -2);
    assert_eq!(Error::InvalidString.code(), -3);
}

#[test]
fn test_lex_error_description() {
    assert_eq!(LexError::UnknownOperator.description(), "Unknown operator");
    assert_eq!(
        LexError::ParenthesisNotMatch.description(),
        "Parenthesis do not match"
    );
}

#[test]
fn test_operator_built_across_spaces() {
    // `:` and `=` separated by whitespace still fuse into one token
    let mut env = ASTEnvironment::new();
    assert_eq!(eval_str("x : = 4", &mut env), Ok(Exp::Lit(Lit::Number(4))));
    assert_eq!(env.get("x"), Some(Lit::Number(4)));
}
