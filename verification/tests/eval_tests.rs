use num_bigint::BigInt;
use sputter::eval;
use sputter::eval::Op;
use sputter::num_oper;
use sputter::parse;
use sputter::EvalError;
use sputter::Value;

fn ident(s: &str) -> Value {
    Value::Identifier(String::from(s))
}

fn num(n: i64) -> Value {
    Value::Int(BigInt::from(n))
}

fn run(line: &str) -> Result<Value, EvalError> {
    eval(parse(line).unwrap())
}

#[test]
fn leaves_evaluate_to_themselves() {
    assert_eq!(eval(num(42)), Ok(num(42)));
    assert_eq!(eval(ident("foo")), Ok(ident("foo")));
    assert_eq!(run("()"), Ok(Value::Expr(vec![])));
}

#[test]
fn single_term_collapses() {
    assert_eq!(run("(((a)))"), Ok(ident("a")));
    assert_eq!(run("(5)"), Ok(num(5)));
}

#[test]
fn addition() {
    assert_eq!(run("(+ 1 2 3)"), Ok(num(6)));
}

#[test]
fn multiplication() {
    assert_eq!(run("(* 2 3 4)"), Ok(num(24)));
}

#[test]
fn subtraction_folds_left() {
    assert_eq!(run("(- 10 3 2)"), Ok(num(5)));
}

#[test]
fn division_truncates_toward_zero() {
    assert_eq!(run("(/ 7 2)"), Ok(num(3)));
    assert_eq!(run("(/ -7 2)"), Ok(num(-3)));
    assert_eq!(run("(/ 7 -2)"), Ok(num(-3)));
    assert_eq!(run("(/ -7 -2)"), Ok(num(3)));
    assert_eq!(run("(/ 100 3 3)"), Ok(num(11)));
}

#[test]
fn division_by_zero_is_reported() {
    assert_eq!(run("(/ 1 0)"), Err(EvalError::DivisionByZero));
    assert_eq!(run("(/ 0 0)"), Err(EvalError::DivisionByZero));
}

#[test]
fn unknown_operator_is_inert() {
    assert_eq!(
        run("(foo 1 2)"),
        Ok(Value::Expr(vec![ident("foo"), num(1), num(2)]))
    );
}

#[test]
fn non_identifier_head_is_inert() {
    assert_eq!(run("(1 2 3)"), Ok(Value::Expr(vec![num(1), num(2), num(3)])));
}

#[test]
fn nested_arithmetic() {
    assert_eq!(run("(+ (* 2 3) 4)"), Ok(num(10)));
}

#[test]
fn arbitrary_precision_product() {
    let expected: BigInt = "9999999999999999999800000000000000000001"
        .parse()
        .unwrap();
    assert_eq!(
        run("(* 99999999999999999999 99999999999999999999)"),
        Ok(Value::Int(expected))
    );
}

#[test]
fn bad_argument_positions() {
    assert_eq!(run("(+ a 1)"), Err(EvalError::BadArgument(0)));
    assert_eq!(run("(+ 1 a)"), Err(EvalError::BadArgument(1)));
    assert_eq!(run("(+ 1 2 (b))"), Err(EvalError::BadArgument(2)));
}

#[test]
fn inner_error_propagates() {
    assert_eq!(run("(foo (/ 1 0))"), Err(EvalError::DivisionByZero));
}

#[test]
fn evaluating_a_result_again_is_a_fixpoint() {
    let once = run("(foo (+ 1 2) bar)").unwrap();
    let twice = eval(run("(foo (+ 1 2) bar)").unwrap()).unwrap();
    assert_eq!(once, twice);
}

#[test]
fn num_oper_folds_from_first_argument() {
    assert_eq!(num_oper(Op::Add, &vec![num(1), num(2)]), Ok(num(3)));
    assert_eq!(num_oper(Op::Sub, &vec![num(1)]), Ok(num(1)));
    assert_eq!(
        num_oper(Op::Mul, &vec![ident("x"), num(2)]),
        Err(EvalError::BadArgument(0))
    );
    assert_eq!(
        num_oper(Op::Div, &vec![num(4), num(0)]),
        Err(EvalError::DivisionByZero)
    );
}
