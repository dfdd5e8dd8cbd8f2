use lyng2::ast::eval::Context;
use lyng2::ast::parser::parse;

fn evaluated(text: &str) -> String {
    let mut ctx = Context::new();
    let result = parse(text.to_string()).unwrap().pop().unwrap().eval(&mut ctx).unwrap();
    result.to_string()
}

#[test]
fn add_two_variables_and_convert_to_values() {
    assert_eq!("2 x", evaluated("x + x"))
}

#[test]
fn add_several_variables_and_convert_to_values() {
    assert_eq!("5 + 3 x - y", evaluated("x+y+3+y+2*x+y+2-4*y"))
}

#[test]
fn mul_several_variables_and_convert_to_values() {
    assert_eq!("x² y²", evaluated("x*x*y*y "))
}

#[test]
fn mul_two_variables_add_and_convert_to_values() {
    assert_eq!("7 x y", evaluated("x*y + y*x + 2*y*x + 3*x*y"))
}

#[test]
fn mul_several_variables_and_convert_to_valuesa() {
    assert_eq!("6 x⁴ y⁴", evaluated("x*y * y*x * 2*y*x * 3*x*y"))
}

#[test]
fn mul_several_variables_and_add_and_convert_to_values2() {
    assert_eq!(
        "126 x⁴ y⁴",
        evaluated("x*y * y*x * 2*y*x * 3*x*y + 5*x*y * 4*y*x * 2*y*x * 3*x*y")
    )
}

#[test]
fn mul_several_variables_and_add_and_convert_to_values3() {
    assert_eq!(
        "126 x⁴ y⁴",
        evaluated("x*y * y*x * y*2*x * x*y*3 + 5*x*y * 4*y*x * 2*y*x * 3*x*y")
    )
}

#[test]
fn square_of_sum() {
    assert_eq!("2 x y + x² + y²", evaluated("(x+y)*(x+y)"))
}

#[test]
fn for_ranja() {
    assert_eq!("0", evaluated("(x-y)*(x+y)+(y-x)*(x+y)"))
}

#[test]
fn diff_of_square() {
    assert_eq!("x² - y²", evaluated("(x+y)*(x-y)"))
}

#[test]
fn diff_of_cubes() {
    assert_eq!("x³ - y³", evaluated("(x-y)*(x^2+y^2+x*y)"))
}

#[test]
fn cube_of_sum() {
    assert_eq!("3 x y² + 3 x² y + x³ + y³", evaluated("(x+y)*(x+y)*(x+y)"))
}

#[test]
fn cube_of_diff() {
    assert_eq!("3 x y² -3 x² y + x³ - y³", evaluated("(x-y)*(x-y)*(x-y)"))
}

#[test]
fn fourth_of_sum() {
    assert_eq!("4 x y³ + 6 x² y² + 4 x³ y + x⁴ + y⁴", evaluated("(x+y)*(x+y)*(x+y)*(x+y)"))
}

#[test]
fn fifth_of_sum() {
    assert_eq!(
        "5 x y⁴ + 10 x² y³ + 10 x³ y² + 5 x⁴ y + x⁵ + y⁵",
        evaluated("(x+y)*(x+y)*(x+y)*(x+y)*(x+y)")
    )
}

#[test]
fn sixth_of_sum() {
    assert_eq!(
        "6 x y⁵ + 15 x² y⁴ + 20 x³ y³ + 15 x⁴ y² + 6 x⁵ y + x⁶ + y⁶",
        evaluated("(x+y)*(x+y)*(x+y)*(x+y)*(x+y)*(x+y)")
    )
}
