use lyng2::ast::eval::Context;
use lyng2::ast::parser::parse;
use lyng2::ast::power::exponantiate;
use lyng2::ast::values::Values;
use lyng2::ast::EvaluationError;
use lyng2::ast::ExpressionSyntaxTree;
use lyng2::ast::Localization;
use lyng2::decimal::Decimal;
use lyng2::decimal::Order;
use std::collections::HashSet;

fn value_of(text: &str) -> Values {
    let mut ctx = Context::new();
    parse(text.to_string()).unwrap().pop().unwrap().eval(&mut ctx).unwrap()
}

fn evaluated(text: &str) -> String {
    value_of(text).to_string()
}

fn failure_of(text: &str) -> EvaluationError {
    let mut ctx = Context::new();
    parse(text.to_string()).unwrap().pop().unwrap().eval(&mut ctx).unwrap_err()
}

fn decimal(text: &str) -> Decimal {
    Decimal::parse(text).unwrap()
}

#[test]
fn order_of_summands_makes_no_difference() {
    assert_eq!(evaluated("x+y"), evaluated("y+x"));
    assert_eq!("x + y", evaluated("y+x"));
}

#[test]
fn order_of_numbers_makes_no_difference_unless_both_are_zero() {
    assert_eq!(evaluated("1.5 + 2"), evaluated("2 + 1.5"));
    let Values::Number(last) = value_of("0 + 0.0") else { panic!("no number") };
    assert_eq!(1, last.scale);
    let Values::Number(last) = value_of("0.0 + 0") else { panic!("no number") };
    assert_eq!(0, last.scale);
}

#[test]
fn decimals_are_equal_by_value() {
    assert_eq!(decimal("1.0"), decimal("1"));
    assert_eq!(decimal("1e2"), decimal("100"));
    assert_ne!(decimal("1.5"), decimal("1"));
    assert_eq!(value_of("2.0 * x"), value_of("2 * x"));
    let mut seen = HashSet::new();
    seen.insert(value_of("2.0 * x"));
    assert!(seen.contains(&value_of("2 * x")));
    assert!(!seen.contains(&value_of("3 * x")));
}

#[test]
fn like_terms_keep_the_writing_that_came_first() {
    assert_eq!("2 (2) ^ (x)", evaluated("2^x + 2.0^x"));
    assert_eq!("2 (2.0) ^ (x)", evaluated("2.0^x + 2^x"));
}

#[test]
fn order_of_factors_makes_no_difference() {
    assert_eq!(evaluated("a*b*c"), evaluated("c*a*b"));
    assert_eq!("a b c", evaluated("c*a*b"));
}

#[test]
fn adding_zero_changes_nothing() {
    let zero = Values::Number(Decimal::zero());
    let sum = value_of("x*y + 3");
    assert_eq!(value_of("x*y + 3"), sum.add(zero));
    let zero = Values::Number(Decimal::zero());
    assert_eq!(value_of("x^y"), zero.add(value_of("x^y")));
}

#[test]
fn multiplying_by_one_changes_nothing() {
    let one = Values::Number(Decimal::one());
    assert_eq!(value_of("x*y + 3"), value_of("x*y + 3").mul(one).unwrap());
    let one = Values::Number(Decimal::one());
    assert_eq!(value_of("2*x"), one.mul(value_of("2*x")).unwrap());
}

#[test]
fn multiplying_by_zero_gives_zero() {
    assert_eq!("0", evaluated("0*(x+y)"));
    assert_eq!("0", evaluated("x*0"));
}

#[test]
fn numbers_fold() {
    assert_eq!("5", evaluated("2+3"));
    assert_eq!("6", evaluated("2*3"));
    assert_eq!("-1", evaluated("2-3"));
    assert_eq!("14.85", evaluated("12.5 + 2.35"));
    assert_eq!("3.75", evaluated("1.5 * 2.5"));
}

#[test]
fn constants_go_to_the_constant_of_a_sum() {
    assert_eq!("3 + 2 x", evaluated("2*x + 3"));
    assert_eq!("3 + x", evaluated("3 + x"));
    assert_eq!("3 + x", evaluated("x + 3"));
}

#[test]
fn powers_of_numbers_are_computed() {
    assert_eq!("1024", evaluated("2^10"));
    assert_eq!("243", evaluated("3^5"));
    assert_eq!("1", evaluated("7^0"));
    assert_eq!("7", evaluated("7^1"));
    assert_eq!("0", evaluated("0^0"));
    assert_eq!("1", evaluated("1^x"));
    assert_eq!("0", evaluated("0^x"));
}

#[test]
fn negative_powers_raise_the_reciprocal() {
    assert_eq!("0.25", evaluated("2^(0-2)"));
    assert_eq!("0.5", evaluated("1/2"));
    assert_eq!("0.5 x", evaluated("x/2"));
}

#[test]
fn a_power_that_is_no_integer_is_an_error() {
    assert_eq!(EvaluationError::NonIntegerExponent, failure_of("2^0.5"));
}

#[test]
fn a_scale_out_of_range_is_an_error() {
    assert_eq!(EvaluationError::OutOfRange, failure_of("1e-999999999 * 1e-999999999"));
}

#[test]
fn an_exponent_that_is_no_machine_integer_is_an_error() {
    assert_eq!(EvaluationError::OutOfRange, failure_of("2^100000000000000000000"));
}

#[test]
fn an_unbound_function_is_an_error() {
    assert_eq!(
        EvaluationError::UnboundFunction(Localization::at(0, 4)),
        failure_of("1 + f(x, 2)")
    );
}

#[test]
fn bound_names_evaluate_to_their_definitions() {
    let mut ctx = Context::new();
    let definition = parse("y + 1".to_string()).unwrap().pop().unwrap();
    let lyng2::ast::SyntaxTree::Expression(definition) = definition;
    ctx.define_variable("x".to_string(), definition, Localization::new());
    let definition = parse("z * z".to_string()).unwrap().pop().unwrap();
    let lyng2::ast::SyntaxTree::Expression(definition) = definition;
    ctx.define_function("f".to_string(), definition, Localization::new());
    assert!(ctx.lookup_variable("x").is_some());
    assert!(ctx.lookup_variable("y").is_none());
    assert!(ctx.lookup_function("f").is_some());
    let tree = parse("x + f(3)".to_string()).unwrap().pop().unwrap();
    assert_eq!("1 + y + z²", tree.eval(&mut ctx).unwrap().to_string());
}

#[test]
fn powers_stay_symbolic_where_they_cannot_fold() {
    assert_eq!("(x) ^ (y)", evaluated("x^y"));
    assert_eq!("(2) ^ (x)", evaluated("2^x"));
    assert_eq!("x³", evaluated("x^3"));
    assert_eq!("(x) ^ (y z)", evaluated("(x^y)^z"));
    assert_eq!("(x) ^ (y + z)", evaluated("x^y * x^z"));
    assert_eq!("(x y) ^ (z)", evaluated("x^z * y^z"));
    assert_eq!("(x) ^ (1 + y)", evaluated("x * x^y"));
}

#[test]
fn division_is_a_negative_power() {
    assert_eq!("x y⁻¹", evaluated("x/y"));
    assert_eq!("", evaluated("x/x"));
    assert_eq!("0.3333333333333333333333333333333333333333333333333333333333333333333333333333333333333333333333333333", evaluated("1/3"));
}

#[test]
fn terms_that_cancel_show_as_zero() {
    assert_eq!("0", evaluated("x - x"));
}

#[test]
fn the_constant_of_a_sum_takes_part_in_a_product() {
    assert_eq!("y + x y", evaluated("(1+x)*y"));
    assert_eq!("y + x y", evaluated("y*(1+x)"));
    assert_eq!("2 + 2 x + y + x y", evaluated("(1+x)*(2+y)"));
    assert_eq!("1 + 2 x + x²", evaluated("(1+x)*(1+x)"));
}

#[test]
fn a_minus_term_that_comes_first_has_no_blank_in_front() {
    assert_eq!("- x", evaluated("y - y - x"));
    assert_eq!("5 - y", evaluated("5 - y"));
    assert_eq!("x -3 y", evaluated("x - 3*y"));
}

#[test]
fn values_can_be_cloned() {
    let value = value_of("(x+y)^z * 3");
    assert_eq!(value, value.clone());
}

#[test]
fn exact_power_routine() {
    assert_eq!(Ok(decimal("1024")), exponantiate(decimal("2"), decimal("10")));
    assert_eq!(Ok(decimal("2.25")), exponantiate(decimal("1.5"), decimal("2")));
    assert_eq!(Ok(decimal("1")), exponantiate(decimal("5"), decimal("0")));
    assert_eq!(Ok(decimal("0.125")), exponantiate(decimal("2"), decimal("-3")));
    assert_eq!(
        Err(EvaluationError::NonIntegerExponent),
        exponantiate(decimal("2"), decimal("1.5"))
    );
    assert_eq!(
        Err(EvaluationError::DivisionByZero),
        exponantiate(decimal("0"), decimal("-1"))
    );
}

#[test]
fn decimals_compare_by_value() {
    assert_eq!(Order::Equal, decimal("1.0").order(&decimal("1")));
    assert_eq!(Order::Less, decimal("0.5").order(&decimal("1")));
    assert_eq!(Order::Greater, decimal("10").order(&decimal("9.99")));
    assert!(decimal("0.00").is_zero());
    assert!(decimal("2.0").is_integer());
    assert!(!decimal("2.5").is_integer());
    assert_eq!(Some(12), decimal("12").to_i64());
    assert_eq!("12.50", decimal("12.50").to_text());
    assert_eq!(decimal("-1"), Decimal::from_i8(-1));
    assert_eq!(None, Decimal::parse("1e-2000000000"));
    assert_eq!(None, Decimal::parse("abc"));
    assert_eq!(Some(decimal("0.25")), decimal("1").checked_div(&decimal("4")));
    assert_eq!(None, decimal("1").checked_div(&decimal("0")));
    assert_eq!(Some(decimal("6.25")), decimal("2.5").checked_mul(&decimal("2.5")));
    assert_eq!(decimal("3.75"), decimal("1.25").add(&decimal("2.5")));
}

#[test]
fn values_compare_in_one_total_order() {
    let x = value_of("x");
    let y = value_of("y");
    assert_eq!(Order::Less, x.compare(&y));
    assert_eq!(Order::Greater, y.compare(&x));
    assert_eq!(Order::Equal, x.compare(&x.copy()));
    assert_eq!(Order::Less, value_of("7").compare(&x));
    assert_eq!(Order::Less, value_of("x + y").compare(&value_of("x * y")));
    assert_eq!(Order::Less, value_of("x * y").compare(&value_of("x ^ y")));
    assert!(value_of("1.0").equals(&value_of("1")));
}

#[test]
fn trees_keep_their_text() {
    let tree = ExpressionSyntaxTree::fun(
        Localization::new(),
        Localization::new(),
        "f".to_string(),
        vec![
            ExpressionSyntaxTree::variable(Localization::new(), Localization::new(), "x".to_string()),
            ExpressionSyntaxTree::number(Localization::new(), Localization::new(), decimal("2.5")),
        ],
    );
    assert_eq!("f(x,2.5)", tree.to_string());
}
