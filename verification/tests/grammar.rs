use lyng2::application::Application;
use lyng2::application::CommandResult;
use lyng2::ast::parser::error::ErrorMessage;
use lyng2::ast::parser::parse;
use lyng2::ast::ExpressionSyntaxTree;
use lyng2::ast::Localization;
use lyng2::ast::Node;
use lyng2::ast::SyntaxTree;
use lyng2::decimal::Decimal;

fn at(column: usize) -> Localization {
    Localization::at(0, column)
}

fn numeral(starts: usize, ends: usize, digits: &str) -> ExpressionSyntaxTree {
    ExpressionSyntaxTree::number(at(starts), at(ends), Decimal::parse(digits).unwrap())
}

fn name(starts: usize, ends: usize, letters: &str) -> ExpressionSyntaxTree {
    ExpressionSyntaxTree::variable(at(starts), at(ends), letters.to_string())
}

fn parsed(text: &str) -> ExpressionSyntaxTree {
    let SyntaxTree::Expression(tree) = parse(text.to_string()).unwrap().pop().unwrap();
    tree
}

#[test]
fn sums_and_differences_read_from_left_to_right() {
    assert_eq!("((123 - 456) + 789)", parsed("123 - 456 + 789").to_string());
    assert_eq!("((123 + 456) - 789)", parsed("123 + 456 - 789").to_string());
    assert_eq!(
        "((((((1 + 2) - 3) + 4) - 5) + 6) - 7)",
        parsed("1 + 2 - 3 + 4 - 5 + 6 - 7").to_string()
    );
}

#[test]
fn products_and_quotients_read_from_left_to_right() {
    assert_eq!("((123 * 456) / 789)", parsed("123 * 456 / 789").to_string());
    assert_eq!("((123 / 456) * 789)", parsed("123 / 456 * 789").to_string());
    assert_eq!("(1 + ((2 * 3) / 4))", parsed("1 + 2 * 3 / 4").to_string());
}

#[test]
fn powers_group_to_the_right() {
    assert_eq!("(2 ^ (3 ^ 4))", parsed("2^3^4").to_string());
}

#[test]
fn a_minus_sign_negates() {
    let expected = ExpressionSyntaxTree::neg(at(0), at(1), name(1, 2, "x"));
    assert_eq!(expected, parsed("-x"));
    assert_eq!("(1 - --2)", parsed("1 - - -2").to_string());
}

#[test]
fn variables_are_runs_of_letters() {
    assert_eq!(name(0, 5, "alpha"), parsed("alpha  "));
    assert_eq!(
        ExpressionSyntaxTree::mul(at(2), at(3), name(0, 1, "x"), name(4, 5, "y")),
        parsed("x * y")
    );
}

#[test]
fn numbers_take_a_fraction_or_an_exponent() {
    assert_eq!(numeral(0, 5, "12.34"), parsed("12.34"));
    assert_eq!(numeral(0, 4, "12e3"), parsed("12e3"));
    assert_eq!(numeral(0, 5, "12e-3"), parsed("12e-3"));
    assert_eq!("0.012", parsed("12e-3").to_string());
}

#[test]
fn functions_take_arguments() {
    let expected = ExpressionSyntaxTree::fun(
        at(0),
        at(11),
        "f".to_string(),
        vec![
            numeral(2, 3, "1"),
            ExpressionSyntaxTree::add(at(7), at(8), name(5, 6, "x"), name(9, 10, "x")),
        ],
    );
    assert_eq!(expected, parsed("f(1, x + x)"));
    assert_eq!(
        "(-f(1,(x + x),((2 * 2) / 4),(5 * (2 + 4))) + 1.2)",
        parsed("-f(1,x+x,2*2/4,5*(2+4))+1.2").to_string()
    );
}

#[test]
fn positions_count_lines_and_columns() {
    let tree = parsed("1 +\n  2");
    let expected = ExpressionSyntaxTree::add(
        at(2),
        at(3),
        numeral(0, 1, "1"),
        ExpressionSyntaxTree::number(
            Localization::at(1, 2),
            Localization::at(1, 3),
            Decimal::parse("2").unwrap(),
        ),
    );
    assert_eq!(expected, tree);
}

#[test]
fn a_missing_closing_bracket_is_the_error_that_is_reported() {
    let message = parse("(1 + 2".to_string()).unwrap_err();
    assert_eq!("Syntax Error: missing closing parenthesis", message.message);
    assert_eq!(Localization::at(0, 6), message.localization);
    assert_eq!(120, message.priority);
    let message = parse("f(1, 2".to_string()).unwrap_err();
    assert_eq!("Syntax Error: missing closing parenthesis", message.message);
}

#[test]
fn an_empty_bracket_expects_an_expression() {
    let message = parse("( )".to_string()).unwrap_err();
    assert_eq!(
        "Syntax Error: expected '-' or expected '-' or '(' or a number, got ')', got '( )'",
        message.message
    );
    assert_eq!(Localization::at(0, 0), message.localization);
    let message = parse("(".to_string()).unwrap_err();
    assert_eq!("Syntax Error: expected expression, got ''", message.message);
    assert_eq!(Localization::at(0, 1), message.localization);
}

#[test]
fn a_number_out_of_range_is_no_number() {
    let message = parse("1e999999999999999999999".to_string()).unwrap_err();
    assert_eq!(
        "Syntax Error: expected '-' or '(' or number failed, got '1e999999999999999999999'",
        message.message
    );
    assert_eq!(70, message.priority);
}

#[test]
fn leftover_input_is_reported_where_it_starts() {
    let message = parse("12.34.56".to_string()).unwrap_err();
    assert_eq!("expected end of input, '.56' was left", message.message);
    assert_eq!(Localization::at(0, 5), message.localization);
    let message = parse("123;".to_string()).unwrap_err();
    assert_eq!("expected end of input, ';' was left", message.message);
    assert_eq!(Localization::at(0, 3), message.localization);
}

#[test]
fn blank_input_is_rejected_at_the_start() {
    for text in ["", " ", "\n", " \t\r\n ", "\u{a0}\u{2003}"] {
        let message = parse(text.to_string()).unwrap_err();
        assert_eq!("Syntax Error: expected expression, got ''", message.message);
        assert_eq!(Localization::at(0, 0), message.localization);
        assert_eq!(99, message.priority);
    }
}

#[test]
fn error_constructors_rank_their_messages() {
    let here = Localization::at(1, 2);
    assert_eq!(121, ErrorMessage::forgot_comma("m".to_string()).priority);
    assert_eq!(70, ErrorMessage::sign_failed("m".to_string(), here).priority);
    assert_eq!(40, ErrorMessage::missing_opening_parenthesis("m".to_string(), here).priority);
    assert_eq!(120, ErrorMessage::missing_closing_parenthesis("m".to_string(), here).priority);
    assert_eq!(99, ErrorMessage::empty_expression("m".to_string(), here).priority);
    assert_eq!(10, ErrorMessage::atom_failed("m".to_string(), here).priority);
    assert_eq!(15, ErrorMessage::term_failed("m".to_string(), here).priority);
    assert_eq!(20, ErrorMessage::expression_failed("m".to_string()).priority);
    assert_eq!(25, ErrorMessage::exponentiation_failed("m".to_string(), here).priority);
    assert_eq!(110, ErrorMessage::expected_end_of_input("m".to_string()).priority);
    assert_eq!(120, ErrorMessage::assignment_error("m".to_string()).priority);
    assert_eq!(0, ErrorMessage::no_assignment_found("m".to_string()).priority);
    assert_eq!(here, ErrorMessage::term_failed("m".to_string(), here).localization);
    let missing = ErrorMessage::missing_tuple_comma();
    assert_eq!("expected ',' for tuple", missing.message);
    assert_eq!(0, missing.rank());
    let empty = ErrorMessage::empty_function_arguments(")");
    assert_eq!("expected function arguments, got )", empty.message);
    assert_eq!(80, empty.priority);
    let left = ErrorMessage::leftover("x".to_string(), here);
    assert_eq!("expected end of input, 'x' was left", left.message);
    assert_eq!(0, left.priority);
    let mapped = left.map_message(|m| m.to_uppercase());
    assert_eq!("EXPECTED END OF INPUT, 'X' WAS LEFT", mapped.message);
    assert_eq!(here, mapped.localization);
    assert!(ErrorMessage::sign_failed("a".to_string(), here)
        .outranks(&ErrorMessage::atom_failed("b".to_string(), here)));
    assert_eq!("a", ErrorMessage::sign_failed("a".to_string(), here).into_message());
}

#[test]
fn white_space_of_any_kind_is_skipped() {
    assert_eq!("(1 + x)", parsed("\u{2003}1\u{a0}+\tx\r\n").to_string());
}

#[test]
fn trees_can_be_cloned() {
    let tree = parsed("f(1, x) - 2^y");
    assert_eq!(tree, tree.clone());
    assert_eq!(tree, tree.copy());
}

#[test]
fn nodes_keep_their_stretch() {
    let mut node = Node::new(at(1), at(2), 7u8);
    assert_eq!((at(1), at(2)), node.location);
    node.starts_at(at(0));
    assert_eq!((at(0), at(2)), node.location);
    node.ends_at(at(5));
    assert_eq!((at(0), at(5)), node.location);
    node.at(at(3), at(4));
    assert_eq!((at(3), at(4)), node.location);
    assert_eq!(7, node.value);
}

#[test]
fn the_application_answers_with_text_or_message() {
    let mut application = Application::create();
    assert_eq!(
        CommandResult::Success("(1 + (2 * x))".to_string()),
        application.run("1 + 2*x".to_string())
    );
    assert_eq!(
        CommandResult::Error("expected end of input, ')' was left".to_string()),
        application.run("1 )".to_string())
    );
}
