//! Parameter preprocessing and numeric evaluation of the rewritten
//! expressions.

use shot_runner::expr::preprocess_param;

fn eval(expr: &str) -> f64 {
    let rewritten = preprocess_param(&expr.as_bytes().to_vec());
    let rewritten = String::from_utf8(rewritten).expect("rewritten expression is ASCII");
    let mut ns = fasteval::EmptyNamespace;
    fasteval::ez_eval(&rewritten, &mut ns).expect("expression evaluates")
}

#[test]
fn preprocess_rewrites_power_operator() {
    assert_eq!(preprocess_param(&b"2**2".to_vec()), b"2^2".to_vec());
}

#[test]
fn preprocess_rewrites_pi() {
    assert_eq!(preprocess_param(&b"pi".to_vec()), b"pi()".to_vec());
    assert_eq!(preprocess_param(&b"2*pi".to_vec()), b"2*pi()".to_vec());
}

#[test]
fn preprocess_rewrites_both() {
    assert_eq!(
        preprocess_param(&b"-(234.0 - 0.304074011085012*pi**(-1))".to_vec()),
        b"-(234.0 - 0.304074011085012*pi()^(-1))".to_vec()
    );
}

#[test]
fn preprocess_keeps_plain_expressions() {
    assert_eq!(preprocess_param(&b"1/2".to_vec()), b"1/2".to_vec());
    assert_eq!(preprocess_param(&b"".to_vec()), b"".to_vec());
}

#[test]
fn eval_integer_literal() {
    assert_eq!(eval("1"), 1.0);
}

#[test]
fn eval_fraction() {
    assert_eq!(eval("1/2"), 0.5);
}

#[test]
fn eval_power_operator() {
    assert_eq!(eval("2**2"), 4.0);
}

#[test]
fn eval_pi_constant() {
    assert_eq!(eval("pi"), 3.141592653589793);
}

#[test]
fn eval_compound_expression() {
    assert_eq!(eval("-(234.0 - 0.304074011085012*pi**(-1))"), -233.90321023614007);
}

#[test]
fn eval_compound_expression_division_form() {
    assert_eq!(eval("-234.0 + 0.304074011085012/pi"), -233.90321023614007);
}

#[test]
fn eval_plain_decimal() {
    assert_eq!(eval("0.306088405064804"), 0.306088405064804);
}

#[test]
fn eval_malformed_expression_fails() {
    let rewritten = preprocess_param(&b"1 + (2".to_vec());
    let rewritten = String::from_utf8(rewritten).unwrap();
    let mut ns = fasteval::EmptyNamespace;
    assert!(fasteval::ez_eval(&rewritten, &mut ns).is_err());
}

#[test]
fn eval_unknown_symbol_fails() {
    let rewritten = preprocess_param(&b"theta + 1".to_vec());
    let rewritten = String::from_utf8(rewritten).unwrap();
    let mut ns = fasteval::EmptyNamespace;
    assert!(fasteval::ez_eval(&rewritten, &mut ns).is_err());
}
