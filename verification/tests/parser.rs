use lyng2::ast::parser::parse;
use lyng2::ast::ExpressionSyntaxTree;
use lyng2::ast::Localization;
use lyng2::ast::SyntaxTree;
use lyng2::decimal::Decimal;

fn at(column: usize) -> Localization {
    Localization::at(0, column)
}

fn number(starts: usize, ends: usize, digits: &str) -> ExpressionSyntaxTree {
    ExpressionSyntaxTree::number(at(starts), at(ends), Decimal::parse(digits).unwrap())
}

#[test]
fn malformed_float() {
    let result = parse("12.34.56 ;".to_string());

    let message = result.unwrap_err();
    assert_eq!(
        "expected end of input, '.56 ;' was left".to_string(),
        message.message
    );
    assert_eq!(Localization::at(0, 5), message.localization);
}

#[test]
fn empty_input_is_invalid() {
    let result = parse(" ".to_string());

    let message = result.unwrap_err();
    assert_eq!(
        "Syntax Error: expected expression, got ''".to_string(),
        message.message
    );
    assert_eq!(Localization::at(0, 0), message.localization);
}

#[test]
fn only_linebreak_is_invalid() {
    let result = parse("\n".to_string());

    let message = result.unwrap_err();
    assert_eq!(
        "Syntax Error: expected expression, got ''".to_string(),
        message.message
    );
    assert_eq!(Localization::at(0, 0), message.localization);
}

#[test]
fn add_two_integers() {
    let result = parse("123 + 456".to_string());

    let expected = ExpressionSyntaxTree::add(at(4), at(5), number(0, 3, "123"), number(6, 9, "456"));

    assert_eq!(Ok(vec![SyntaxTree::Expression(expected)]), result);
}

#[test]
fn add_three_integers() {
    let result = parse("123 + 456 + 789".to_string());

    let expected = ExpressionSyntaxTree::add(at(10), at(11), ExpressionSyntaxTree::add(at(4), at(5), number(0, 3, "123"), number(6, 9, "456")), number(12, 15, "789"));

    assert_eq!(Ok(vec![SyntaxTree::Expression(expected)]), result);
}

#[test]
fn add_with_missing_first_summand() {
    let result = parse(" + 456".to_string());

    let message = result.unwrap_err();
    assert_eq!(
        "Syntax Error: expected '-' or '(' or a number, got '+ 456'".to_string(),
        message.message
    );
    assert_eq!(Localization::at(0, 1), message.localization);
}

#[test]
fn add_with_missing_second_summand() {
    let result = parse("123 + ".to_string());

    let message = result.unwrap_err();
    assert_eq!(
        "Syntax Error: expected '-' or '(' or a number, got ''".to_string(),
        message.message
    );
    assert_eq!(Localization::at(0, 6), message.localization);
}

#[test]
fn mul_two_integers() {
    let result = parse("123 * 456".to_string());

    let expected = ExpressionSyntaxTree::mul(at(4), at(5), number(0, 3, "123"), number(6, 9, "456"));

    assert_eq!(Ok(vec![SyntaxTree::Expression(expected)]), result);
}

#[test]
fn mul_three_integers() {
    let result = parse("123 * 456 * 789".to_string());

    let expected = ExpressionSyntaxTree::mul(at(10), at(11), ExpressionSyntaxTree::mul(at(4), at(5), number(0, 3, "123"), number(6, 9, "456")), number(12, 15, "789"));

    assert_eq!(Ok(vec![SyntaxTree::Expression(expected)]), result);
}

#[test]
fn mul_with_missing_first_argument() {
    let result = parse(" * 456".to_string());

    let message = result.unwrap_err();
    assert_eq!(
        "Syntax Error: expected '-' or '(' or a number, got '* 456'".to_string(),
        message.message
    );
    assert_eq!(Localization::at(0, 1), message.localization);
}

#[test]
fn mul_with_missing_second_factor() {
    let result = parse("123 * ".to_string());

    let message = result.unwrap_err();
    assert_eq!(
        "Syntax Error: expected '-' or '(' or a number, got ''".to_string(),
        message.message
    );
    assert_eq!(Localization::at(0, 6), message.localization);
}

#[test]
fn div_two_integers() {
    let result = parse("123 / 456".to_string());

    let expected = ExpressionSyntaxTree::div(at(4), at(5), number(0, 3, "123"), number(6, 9, "456"));

    assert_eq!(Ok(vec![SyntaxTree::Expression(expected)]), result);
}

#[test]
fn div_three_integers() {
    let result = parse("123 / 456 / 789".to_string());

    let expected = ExpressionSyntaxTree::div(at(10), at(11), ExpressionSyntaxTree::div(at(4), at(5), number(0, 3, "123"), number(6, 9, "456")), number(12, 15, "789"));

    assert_eq!(Ok(vec![SyntaxTree::Expression(expected)]), result);
}

#[test]
fn div_with_missing_first_argument() {
    let result = parse(" / 456".to_string());

    let message = result.unwrap_err();
    assert_eq!(
        "Syntax Error: expected '-' or '(' or a number, got '/ 456'".to_string(),
        message.message
    );
    assert_eq!(Localization::at(0, 1), message.localization);
}

#[test]
fn div_with_missing_divisor() {
    let result = parse("123 / ".to_string());

    let message = result.unwrap_err();
    assert_eq!(
        "Syntax Error: expected '-' or '(' or a number, got ''".to_string(),
        message.message
    );
    assert_eq!(Localization::at(0, 6), message.localization);
}

#[test]
fn exp_two_integers() {
    let result = parse("123 ^ 456".to_string());

    let expected = ExpressionSyntaxTree::exp(at(4), at(5), number(0, 3, "123"), number(6, 9, "456"));

    assert_eq!(Ok(vec![SyntaxTree::Expression(expected)]), result);
}

#[test]
fn exp_three_integers() {
    let result = parse("123 ^ 456 ^ 789".to_string());

    let expected = ExpressionSyntaxTree::exp(at(4), at(5), number(0, 3, "123"), ExpressionSyntaxTree::exp(at(10), at(11), number(6, 9, "456"), number(12, 15, "789")));

    assert_eq!(Ok(vec![SyntaxTree::Expression(expected)]), result);
}

#[test]
fn exp_with_missing_first_argument() {
    let result = parse(" ^ 456".to_string());

    let message = result.unwrap_err();
    assert_eq!(
        "Syntax Error: expected '-' or '(' or a number, got '^ 456'".to_string(),
        message.message
    );
    assert_eq!(Localization::at(0, 1), message.localization);
}

#[test]
fn subtract_two_integers() {
    let result = parse("123 - 456".to_string());

    let expected = ExpressionSyntaxTree::sub(at(4), at(5), number(0, 3, "123"), number(6, 9, "456"));

    assert_eq!(Ok(vec![SyntaxTree::Expression(expected)]), result);
}

#[test]
fn subtract_twice() {
    let result = parse("123 - 456 - 789".to_string());

    let expected = ExpressionSyntaxTree::sub(at(10), at(11), ExpressionSyntaxTree::sub(at(4), at(5), number(0, 3, "123"), number(6, 9, "456")), number(12, 15, "789"));

    assert_eq!(Ok(vec![SyntaxTree::Expression(expected)]), result);
}

#[test]
fn subtract_with_missing_second_summand() {
    let result = parse("123 - ".to_string());

    let message = result.unwrap_err();
    assert_eq!(
        "Syntax Error: expected '-' or '(' or a number, got ''".to_string(),
        message.message
    );
    assert_eq!(Localization::at(0, 6), message.localization);
}

#[test]
fn subtract_with_missing_subtrahend() {
    let result = parse("123 - ".to_string());

    let message = result.unwrap_err();
    assert_eq!(
        "Syntax Error: expected '-' or '(' or a number, got ''".to_string(),
        message.message
    );
    assert_eq!(Localization::at(0, 6), message.localization);
}

#[test]
fn add_and_subtract() {
    let result = parse("123 + 456 - 789".to_string());

    let expected = ExpressionSyntaxTree::sub(at(10), at(11), ExpressionSyntaxTree::add(at(4), at(5), number(0, 3, "123"), number(6, 9, "456")), number(12, 15, "789"));

    assert_eq!(Ok(vec![SyntaxTree::Expression(expected)]), result);
}

#[test]
fn add_and_subtract_many_times() {
    let result = parse("1 + 2 - 3 + 4 - 5 + 6 - 7".to_string());

    let expected = ExpressionSyntaxTree::sub(at(22), at(23), ExpressionSyntaxTree::add(at(18), at(19), ExpressionSyntaxTree::sub(at(14), at(15), ExpressionSyntaxTree::add(at(10), at(11), ExpressionSyntaxTree::sub(at(6), at(7), ExpressionSyntaxTree::add(at(2), at(3), number(0, 1, "1"), number(4, 5, "2")), number(8, 9, "3")), number(12, 13, "4")), number(16, 17, "5")), number(20, 21, "6")), number(24, 25, "7"));

    assert_eq!(Ok(vec![SyntaxTree::Expression(expected)]), result);
}

#[test]
fn add_and_multiply() {
    let result = parse("123 + 456 * 789".to_string());

    let expected = ExpressionSyntaxTree::add(at(4), at(5), number(0, 3, "123"), ExpressionSyntaxTree::mul(at(10), at(11), number(6, 9, "456"), number(12, 15, "789")));

    assert_eq!(Ok(vec![SyntaxTree::Expression(expected)]), result);
}

#[test]
fn add_and_divide() {
    let result = parse("123 + 456 / 789".to_string());

    let expected = ExpressionSyntaxTree::add(at(4), at(5), number(0, 3, "123"), ExpressionSyntaxTree::div(at(10), at(11), number(6, 9, "456"), number(12, 15, "789")));

    assert_eq!(Ok(vec![SyntaxTree::Expression(expected)]), result);
}

#[test]
fn add_and_exp() {
    let result = parse("123 + 456 ^ 789".to_string());

    let expected = ExpressionSyntaxTree::add(at(4), at(5), number(0, 3, "123"), ExpressionSyntaxTree::exp(at(10), at(11), number(6, 9, "456"), number(12, 15, "789")));

    assert_eq!(Ok(vec![SyntaxTree::Expression(expected)]), result);
}

#[test]
fn sub_and_add() {
    let result = parse("123 - 456 + 789".to_string());

    let expected = ExpressionSyntaxTree::add(at(10), at(11), ExpressionSyntaxTree::sub(at(4), at(5), number(0, 3, "123"), number(6, 9, "456")), number(12, 15, "789"));

    assert_eq!(Ok(vec![SyntaxTree::Expression(expected)]), result);
}

#[test]
fn sub_and_multiply() {
    let result = parse("123 - 456 * 789".to_string());

    let expected = ExpressionSyntaxTree::sub(at(4), at(5), number(0, 3, "123"), ExpressionSyntaxTree::mul(at(10), at(11), number(6, 9, "456"), number(12, 15, "789")));

    assert_eq!(Ok(vec![SyntaxTree::Expression(expected)]), result);
}

#[test]
fn sub_and_divide() {
    let result = parse("123 - 456 / 789".to_string());

    let expected = ExpressionSyntaxTree::sub(at(4), at(5), number(0, 3, "123"), ExpressionSyntaxTree::div(at(10), at(11), number(6, 9, "456"), number(12, 15, "789")));

    assert_eq!(Ok(vec![SyntaxTree::Expression(expected)]), result);
}

#[test]
fn sub_and_exp() {
    let result = parse("123 - 456 ^ 789".to_string());

    let expected = ExpressionSyntaxTree::sub(at(4), at(5), number(0, 3, "123"), ExpressionSyntaxTree::exp(at(10), at(11), number(6, 9, "456"), number(12, 15, "789")));

    assert_eq!(Ok(vec![SyntaxTree::Expression(expected)]), result);
}

#[test]
fn multiply_and_add() {
    let result = parse("123 * 456 + 789".to_string());

    let expected = ExpressionSyntaxTree::add(at(10), at(11), ExpressionSyntaxTree::mul(at(4), at(5), number(0, 3, "123"), number(6, 9, "456")), number(12, 15, "789"));

    assert_eq!(Ok(vec![SyntaxTree::Expression(expected)]), result);
}

#[test]
fn multiply_and_sub() {
    let result = parse("123 * 456 - 789".to_string());

    let expected = ExpressionSyntaxTree::sub(at(10), at(11), ExpressionSyntaxTree::mul(at(4), at(5), number(0, 3, "123"), number(6, 9, "456")), number(12, 15, "789"));

    assert_eq!(Ok(vec![SyntaxTree::Expression(expected)]), result);
}

#[test]
fn multiply_and_div() {
    let result = parse("123 * 456 / 789".to_string());

    let expected = ExpressionSyntaxTree::div(at(10), at(11), ExpressionSyntaxTree::mul(at(4), at(5), number(0, 3, "123"), number(6, 9, "456")), number(12, 15, "789"));

    assert_eq!(Ok(vec![SyntaxTree::Expression(expected)]), result);
}

#[test]
fn multiply_and_exp() {
    let result = parse("123 * 456 ^ 789".to_string());

    let expected = ExpressionSyntaxTree::mul(at(4), at(5), number(0, 3, "123"), ExpressionSyntaxTree::exp(at(10), at(11), number(6, 9, "456"), number(12, 15, "789")));

    assert_eq!(Ok(vec![SyntaxTree::Expression(expected)]), result);
}

#[test]
fn div_and_add() {
    let result = parse("123 / 456 + 789".to_string());

    let expected = ExpressionSyntaxTree::add(at(10), at(11), ExpressionSyntaxTree::div(at(4), at(5), number(0, 3, "123"), number(6, 9, "456")), number(12, 15, "789"));

    assert_eq!(Ok(vec![SyntaxTree::Expression(expected)]), result);
}

#[test]
fn div_and_sub() {
    let result = parse("123 / 456 - 789".to_string());

    let expected = ExpressionSyntaxTree::sub(at(10), at(11), ExpressionSyntaxTree::div(at(4), at(5), number(0, 3, "123"), number(6, 9, "456")), number(12, 15, "789"));

    assert_eq!(Ok(vec![SyntaxTree::Expression(expected)]), result);
}

#[test]
fn div_and_mul() {
    let result = parse("123 / 456 * 789".to_string());

    let expected = ExpressionSyntaxTree::mul(at(10), at(11), ExpressionSyntaxTree::div(at(4), at(5), number(0, 3, "123"), number(6, 9, "456")), number(12, 15, "789"));

    assert_eq!(Ok(vec![SyntaxTree::Expression(expected)]), result);
}

#[test]
fn div_and_exp() {
    let result = parse("123 / 456 ^ 789".to_string());

    let expected = ExpressionSyntaxTree::div(at(4), at(5), number(0, 3, "123"), ExpressionSyntaxTree::exp(at(10), at(11), number(6, 9, "456"), number(12, 15, "789")));

    assert_eq!(Ok(vec![SyntaxTree::Expression(expected)]), result);
}

#[test]
fn exp_and_add() {
    let result = parse("123 ^ 456 + 789".to_string());

    let expected = ExpressionSyntaxTree::add(at(10), at(11), ExpressionSyntaxTree::exp(at(4), at(5), number(0, 3, "123"), number(6, 9, "456")), number(12, 15, "789"));

    assert_eq!(Ok(vec![SyntaxTree::Expression(expected)]), result);
}

#[test]
fn exp_and_sub() {
    let result = parse("123 ^ 456 - 789".to_string());

    let expected = ExpressionSyntaxTree::sub(at(10), at(11), ExpressionSyntaxTree::exp(at(4), at(5), number(0, 3, "123"), number(6, 9, "456")), number(12, 15, "789"));

    assert_eq!(Ok(vec![SyntaxTree::Expression(expected)]), result);
}

#[test]
fn exp_and_div() {
    let result = parse("123 ^ 456 / 789".to_string());

    let expected = ExpressionSyntaxTree::div(at(10), at(11), ExpressionSyntaxTree::exp(at(4), at(5), number(0, 3, "123"), number(6, 9, "456")), number(12, 15, "789"));

    assert_eq!(Ok(vec![SyntaxTree::Expression(expected)]), result);
}

#[test]
fn exp_and_mul() {
    let result = parse("123 ^ 456 * 789".to_string());

    let expected = ExpressionSyntaxTree::mul(at(10), at(11), ExpressionSyntaxTree::exp(at(4), at(5), number(0, 3, "123"), number(6, 9, "456")), number(12, 15, "789"));

    assert_eq!(Ok(vec![SyntaxTree::Expression(expected)]), result);
}

#[test]
fn paren_add_and_subtract() {
    let result = parse("(123 + 456) - 789".to_string());

    let expected = ExpressionSyntaxTree::sub(at(12), at(13), ExpressionSyntaxTree::add(at(5), at(6), number(1, 4, "123"), number(7, 10, "456")), number(14, 17, "789"));

    assert_eq!(Ok(vec![SyntaxTree::Expression(expected)]), result);
}

#[test]
fn paren_add_and_multiply() {
    let result = parse("(123 + 456) * 789".to_string());

    let expected = ExpressionSyntaxTree::mul(at(12), at(13), ExpressionSyntaxTree::add(at(5), at(6), number(1, 4, "123"), number(7, 10, "456")), number(14, 17, "789"));

    assert_eq!(Ok(vec![SyntaxTree::Expression(expected)]), result);
}

#[test]
fn paren_add_and_divide() {
    let result = parse("(123 + 456) / 789".to_string());

    let expected = ExpressionSyntaxTree::div(at(12), at(13), ExpressionSyntaxTree::add(at(5), at(6), number(1, 4, "123"), number(7, 10, "456")), number(14, 17, "789"));

    assert_eq!(Ok(vec![SyntaxTree::Expression(expected)]), result);
}

#[test]
fn paren_add_and_exp() {
    let result = parse("(123 + 456) ^ 789".to_string());

    let expected = ExpressionSyntaxTree::exp(at(12), at(13), ExpressionSyntaxTree::add(at(5), at(6), number(1, 4, "123"), number(7, 10, "456")), number(14, 17, "789"));

    assert_eq!(Ok(vec![SyntaxTree::Expression(expected)]), result);
}

#[test]
fn paren_sub_and_add() {
    let result = parse("(123 - 456) + 789".to_string());

    let expected = ExpressionSyntaxTree::add(at(12), at(13), ExpressionSyntaxTree::sub(at(5), at(6), number(1, 4, "123"), number(7, 10, "456")), number(14, 17, "789"));

    assert_eq!(Ok(vec![SyntaxTree::Expression(expected)]), result);
}

#[test]
fn paren_sub_and_multiply() {
    let result = parse("(123 - 456) * 789".to_string());

    let expected = ExpressionSyntaxTree::mul(at(12), at(13), ExpressionSyntaxTree::sub(at(5), at(6), number(1, 4, "123"), number(7, 10, "456")), number(14, 17, "789"));

    assert_eq!(Ok(vec![SyntaxTree::Expression(expected)]), result);
}

#[test]
fn paren_sub_and_divide() {
    let result = parse("(123 - 456) / 789".to_string());

    let expected = ExpressionSyntaxTree::div(at(12), at(13), ExpressionSyntaxTree::sub(at(5), at(6), number(1, 4, "123"), number(7, 10, "456")), number(14, 17, "789"));

    assert_eq!(Ok(vec![SyntaxTree::Expression(expected)]), result);
}

#[test]
fn paren_sub_and_exp() {
    let result = parse("(123 - 456) ^ 789".to_string());

    let expected = ExpressionSyntaxTree::exp(at(12), at(13), ExpressionSyntaxTree::sub(at(5), at(6), number(1, 4, "123"), number(7, 10, "456")), number(14, 17, "789"));

    assert_eq!(Ok(vec![SyntaxTree::Expression(expected)]), result);
}

#[test]
fn paren_multiply_and_add() {
    let result = parse("(123 * 456) + 789".to_string());

    let expected = ExpressionSyntaxTree::add(at(12), at(13), ExpressionSyntaxTree::mul(at(5), at(6), number(1, 4, "123"), number(7, 10, "456")), number(14, 17, "789"));

    assert_eq!(Ok(vec![SyntaxTree::Expression(expected)]), result);
}

#[test]
fn paren_multiply_and_sub() {
    let result = parse("(123 * 456) - 789".to_string());

    let expected = ExpressionSyntaxTree::sub(at(12), at(13), ExpressionSyntaxTree::mul(at(5), at(6), number(1, 4, "123"), number(7, 10, "456")), number(14, 17, "789"));

    assert_eq!(Ok(vec![SyntaxTree::Expression(expected)]), result);
}

#[test]
fn paren_multiply_and_div() {
    let result = parse("(123 * 456) / 789".to_string());

    let expected = ExpressionSyntaxTree::div(at(12), at(13), ExpressionSyntaxTree::mul(at(5), at(6), number(1, 4, "123"), number(7, 10, "456")), number(14, 17, "789"));

    assert_eq!(Ok(vec![SyntaxTree::Expression(expected)]), result);
}

#[test]
fn paren_multiply_and_exp() {
    let result = parse("(123 * 456) ^ 789".to_string());

    let expected = ExpressionSyntaxTree::exp(at(12), at(13), ExpressionSyntaxTree::mul(at(5), at(6), number(1, 4, "123"), number(7, 10, "456")), number(14, 17, "789"));

    assert_eq!(Ok(vec![SyntaxTree::Expression(expected)]), result);
}

#[test]
fn paren_div_and_add() {
    let result = parse("(123 / 456) + 789".to_string());

    let expected = ExpressionSyntaxTree::add(at(12), at(13), ExpressionSyntaxTree::div(at(5), at(6), number(1, 4, "123"), number(7, 10, "456")), number(14, 17, "789"));

    assert_eq!(Ok(vec![SyntaxTree::Expression(expected)]), result);
}

#[test]
fn paren_div_and_sub() {
    let result = parse("(123 / 456) - 789".to_string());

    let expected = ExpressionSyntaxTree::sub(at(12), at(13), ExpressionSyntaxTree::div(at(5), at(6), number(1, 4, "123"), number(7, 10, "456")), number(14, 17, "789"));

    assert_eq!(Ok(vec![SyntaxTree::Expression(expected)]), result);
}

#[test]
fn paren_div_and_mul() {
    let result = parse("(123 / 456) * 789".to_string());

    let expected = ExpressionSyntaxTree::mul(at(12), at(13), ExpressionSyntaxTree::div(at(5), at(6), number(1, 4, "123"), number(7, 10, "456")), number(14, 17, "789"));

    assert_eq!(Ok(vec![SyntaxTree::Expression(expected)]), result);
}

#[test]
fn paren_div_and_exp() {
    let result = parse("(123 / 456) ^ 789".to_string());

    let expected = ExpressionSyntaxTree::exp(at(12), at(13), ExpressionSyntaxTree::div(at(5), at(6), number(1, 4, "123"), number(7, 10, "456")), number(14, 17, "789"));

    assert_eq!(Ok(vec![SyntaxTree::Expression(expected)]), result);
}

#[test]
fn paren_exp_and_add() {
    let result = parse("(123 ^ 456) + 789".to_string());

    let expected = ExpressionSyntaxTree::add(at(12), at(13), ExpressionSyntaxTree::exp(at(5), at(6), number(1, 4, "123"), number(7, 10, "456")), number(14, 17, "789"));

    assert_eq!(Ok(vec![SyntaxTree::Expression(expected)]), result);
}

#[test]
fn paren_exp_and_sub() {
    let result = parse("(123 ^ 456) - 789".to_string());

    let expected = ExpressionSyntaxTree::sub(at(12), at(13), ExpressionSyntaxTree::exp(at(5), at(6), number(1, 4, "123"), number(7, 10, "456")), number(14, 17, "789"));

    assert_eq!(Ok(vec![SyntaxTree::Expression(expected)]), result);
}

#[test]
fn paren_exp_and_div() {
    let result = parse("(123 ^ 456) / 789".to_string());

    let expected = ExpressionSyntaxTree::div(at(12), at(13), ExpressionSyntaxTree::exp(at(5), at(6), number(1, 4, "123"), number(7, 10, "456")), number(14, 17, "789"));

    assert_eq!(Ok(vec![SyntaxTree::Expression(expected)]), result);
}

#[test]
fn paren_exp_and_mul() {
    let result = parse("(123 ^ 456) * 789".to_string());

    let expected = ExpressionSyntaxTree::mul(at(12), at(13), ExpressionSyntaxTree::exp(at(5), at(6), number(1, 4, "123"), number(7, 10, "456")), number(14, 17, "789"));

    assert_eq!(Ok(vec![SyntaxTree::Expression(expected)]), result);
}

#[test]
fn add_and_subtract_paren() {
    let result = parse("123 + (456 - 789)".to_string());

    let expected = ExpressionSyntaxTree::add(at(4), at(5), number(0, 3, "123"), ExpressionSyntaxTree::sub(at(11), at(12), number(7, 10, "456"), number(13, 16, "789")));

    assert_eq!(Ok(vec![SyntaxTree::Expression(expected)]), result);
}

#[test]
fn add_and_multiply_paren() {
    let result = parse("123 + (456 * 789)".to_string());

    let expected = ExpressionSyntaxTree::add(at(4), at(5), number(0, 3, "123"), ExpressionSyntaxTree::mul(at(11), at(12), number(7, 10, "456"), number(13, 16, "789")));

    assert_eq!(Ok(vec![SyntaxTree::Expression(expected)]), result);
}

#[test]
fn add_and_divide_paren() {
    let result = parse("123 + (456 / 789)".to_string());

    let expected = ExpressionSyntaxTree::add(at(4), at(5), number(0, 3, "123"), ExpressionSyntaxTree::div(at(11), at(12), number(7, 10, "456"), number(13, 16, "789")));

    assert_eq!(Ok(vec![SyntaxTree::Expression(expected)]), result);
}

#[test]
fn add_and_exp_paren() {
    let result = parse("123 + (456 ^ 789)".to_string());

    let expected = ExpressionSyntaxTree::add(at(4), at(5), number(0, 3, "123"), ExpressionSyntaxTree::exp(at(11), at(12), number(7, 10, "456"), number(13, 16, "789")));

    assert_eq!(Ok(vec![SyntaxTree::Expression(expected)]), result);
}

#[test]
fn sub_and_add_paren() {
    let result = parse("123 - (456 + 789)".to_string());

    let expected = ExpressionSyntaxTree::sub(at(4), at(5), number(0, 3, "123"), ExpressionSyntaxTree::add(at(11), at(12), number(7, 10, "456"), number(13, 16, "789")));

    assert_eq!(Ok(vec![SyntaxTree::Expression(expected)]), result);
}

#[test]
fn sub_and_multiply_paren() {
    let result = parse("123 - (456 * 789)".to_string());

    let expected = ExpressionSyntaxTree::sub(at(4), at(5), number(0, 3, "123"), ExpressionSyntaxTree::mul(at(11), at(12), number(7, 10, "456"), number(13, 16, "789")));

    assert_eq!(Ok(vec![SyntaxTree::Expression(expected)]), result);
}

#[test]
fn sub_and_divide_paren() {
    let result = parse("123 - (456 / 789)".to_string());

    let expected = ExpressionSyntaxTree::sub(at(4), at(5), number(0, 3, "123"), ExpressionSyntaxTree::div(at(11), at(12), number(7, 10, "456"), number(13, 16, "789")));

    assert_eq!(Ok(vec![SyntaxTree::Expression(expected)]), result);
}

#[test]
fn sub_and_exp_paren() {
    let result = parse("123 - (456 ^ 789)".to_string());

    let expected = ExpressionSyntaxTree::sub(at(4), at(5), number(0, 3, "123"), ExpressionSyntaxTree::exp(at(11), at(12), number(7, 10, "456"), number(13, 16, "789")));

    assert_eq!(Ok(vec![SyntaxTree::Expression(expected)]), result);
}

#[test]
fn multiply_and_add_paren() {
    let result = parse("123 * (456 + 789)".to_string());

    let expected = ExpressionSyntaxTree::mul(at(4), at(5), number(0, 3, "123"), ExpressionSyntaxTree::add(at(11), at(12), number(7, 10, "456"), number(13, 16, "789")));

    assert_eq!(Ok(vec![SyntaxTree::Expression(expected)]), result);
}

#[test]
fn multiply_and_sub_paren() {
    let result = parse("123 * (456 - 789)".to_string());

    let expected = ExpressionSyntaxTree::mul(at(4), at(5), number(0, 3, "123"), ExpressionSyntaxTree::sub(at(11), at(12), number(7, 10, "456"), number(13, 16, "789")));

    assert_eq!(Ok(vec![SyntaxTree::Expression(expected)]), result);
}

#[test]
fn multiply_and_div_paren() {
    let result = parse("123 * (456 / 789)".to_string());

    let expected = ExpressionSyntaxTree::mul(at(4), at(5), number(0, 3, "123"), ExpressionSyntaxTree::div(at(11), at(12), number(7, 10, "456"), number(13, 16, "789")));

    assert_eq!(Ok(vec![SyntaxTree::Expression(expected)]), result);
}

#[test]
fn multiply_and_exp_paren() {
    let result = parse("123 * (456 ^ 789)".to_string());

    let expected = ExpressionSyntaxTree::mul(at(4), at(5), number(0, 3, "123"), ExpressionSyntaxTree::exp(at(11), at(12), number(7, 10, "456"), number(13, 16, "789")));

    assert_eq!(Ok(vec![SyntaxTree::Expression(expected)]), result);
}

#[test]
fn div_and_add_paren() {
    let result = parse("123 / (456 + 789)".to_string());

    let expected = ExpressionSyntaxTree::div(at(4), at(5), number(0, 3, "123"), ExpressionSyntaxTree::add(at(11), at(12), number(7, 10, "456"), number(13, 16, "789")));

    assert_eq!(Ok(vec![SyntaxTree::Expression(expected)]), result);
}

#[test]
fn div_and_sub_paren() {
    let result = parse("123 / (456 - 789)".to_string());

    let expected = ExpressionSyntaxTree::div(at(4), at(5), number(0, 3, "123"), ExpressionSyntaxTree::sub(at(11), at(12), number(7, 10, "456"), number(13, 16, "789")));

    assert_eq!(Ok(vec![SyntaxTree::Expression(expected)]), result);
}

#[test]
fn div_and_mul_paren() {
    let result = parse("123 / (456 * 789)".to_string());

    let expected = ExpressionSyntaxTree::div(at(4), at(5), number(0, 3, "123"), ExpressionSyntaxTree::mul(at(11), at(12), number(7, 10, "456"), number(13, 16, "789")));

    assert_eq!(Ok(vec![SyntaxTree::Expression(expected)]), result);
}

#[test]
fn div_and_exp_paren() {
    let result = parse("123 / (456 ^ 789)".to_string());

    let expected = ExpressionSyntaxTree::div(at(4), at(5), number(0, 3, "123"), ExpressionSyntaxTree::exp(at(11), at(12), number(7, 10, "456"), number(13, 16, "789")));

    assert_eq!(Ok(vec![SyntaxTree::Expression(expected)]), result);
}

#[test]
fn exp_and_add_paren() {
    let result = parse("123 ^ (456 + 789)".to_string());

    let expected = ExpressionSyntaxTree::exp(at(4), at(5), number(0, 3, "123"), ExpressionSyntaxTree::add(at(11), at(12), number(7, 10, "456"), number(13, 16, "789")));

    assert_eq!(Ok(vec![SyntaxTree::Expression(expected)]), result);
}

#[test]
fn exp_and_sub_paren() {
    let result = parse("123 ^ (456 - 789)".to_string());

    let expected = ExpressionSyntaxTree::exp(at(4), at(5), number(0, 3, "123"), ExpressionSyntaxTree::sub(at(11), at(12), number(7, 10, "456"), number(13, 16, "789")));

    assert_eq!(Ok(vec![SyntaxTree::Expression(expected)]), result);
}

#[test]
fn exp_and_div_paren() {
    let result = parse("123 ^ (456 / 789)".to_string());

    let expected = ExpressionSyntaxTree::exp(at(4), at(5), number(0, 3, "123"), ExpressionSyntaxTree::div(at(11), at(12), number(7, 10, "456"), number(13, 16, "789")));

    assert_eq!(Ok(vec![SyntaxTree::Expression(expected)]), result);
}

#[test]
fn exp_and_mul_paren() {
    let result = parse("123 ^ (456 * 789)".to_string());

    let expected = ExpressionSyntaxTree::exp(at(4), at(5), number(0, 3, "123"), ExpressionSyntaxTree::mul(at(11), at(12), number(7, 10, "456"), number(13, 16, "789")));

    assert_eq!(Ok(vec![SyntaxTree::Expression(expected)]), result);
}
