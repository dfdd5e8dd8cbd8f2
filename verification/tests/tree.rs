use lyng2::ast::ExpressionSyntaxTree;
use lyng2::ast::Localization;
use lyng2::decimal::Decimal;

fn number(value: i8) -> ExpressionSyntaxTree {
    ExpressionSyntaxTree::number(Localization::new(), Localization::new(), Decimal::from_i8(value))
}

#[test]
fn display() {
    let under_test = ExpressionSyntaxTree::neg(
        Localization::new(),
        Localization::new(),
        ExpressionSyntaxTree::add(
            Localization::new(),
            Localization::new(),
            number(1),
            ExpressionSyntaxTree::mul(
                Localization::new(),
                Localization::new(),
                number(2),
                ExpressionSyntaxTree::exp(
                    Localization::new(),
                    Localization::new(),
                    number(3),
                    ExpressionSyntaxTree::sub(
                        Localization::new(),
                        Localization::new(),
                        number(4),
                        ExpressionSyntaxTree::div(
                            Localization::new(),
                            Localization::new(),
                            number(5),
                            ExpressionSyntaxTree::variable(
                                Localization::new(),
                                Localization::new(),
                                "x".to_string(),
                            ),
                        ),
                    ),
                ),
            ),
        ),
    );

    let expected = "-(1 + (2 * (3 ^ (4 - (5 / x)))))".to_string();

    assert_eq!(expected, under_test.to_string());
}
