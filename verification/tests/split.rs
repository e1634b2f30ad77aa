use eq_calc::eq_sanitize::EqSanitize;
use eq_calc::errors::SyntaxError;
use eq_calc::operators::Operators;
use eq_calc::{EquationString, FullSplit};

#[test]
pub fn test_split_no_parentheses() {
    let eq = "1+-2*2+5";
    let eq = EquationString::remove_whitespaces(eq);
    let (left, right, operator) = eq.split().unwrap();
    assert_eq!(left.to_string(), "1");
    assert_eq!(right.to_string(), "-2*2+5");
    assert_eq!(operator, Operators::Plus);

    let eq = "-2*2-5";
    let eq = EquationString::remove_whitespaces(eq);
    let (left, right, operator) = eq.split().unwrap();
    assert_eq!(left.to_string(), "-2*2");
    assert_eq!(right.to_string(), "5");
    assert_eq!(operator, Operators::Minus);

    let eq = "-2*2^5";
    let eq = EquationString::remove_whitespaces(eq);
    let (left, right, operator) = eq.split().unwrap();
    assert_eq!(left.to_string(), "-2");
    assert_eq!(right.to_string(), "2^5");
    assert_eq!(operator, Operators::Mult);

    let eq = "-2^2^5";
    let eq = EquationString::remove_whitespaces(eq);
    let (left, right, operator) = eq.split().unwrap();
    assert_eq!(left.to_string(), "-2^2");
    assert_eq!(right.to_string(), "5");
    assert_eq!(operator, Operators::Exp);
}

#[test]
pub fn test_split_eq_wrapped_with_parentheses() {
    let eq = "(-2^2^5)";
    let eq = EquationString::remove_whitespaces(eq);
    let (left, right, operator) = eq.split().unwrap();
    assert_eq!(left.to_string(), "-2^2");
    assert_eq!(right.to_string(), "5");
    assert_eq!(operator, Operators::Exp);

    let eq = "-(-2^2^5)";
    let eq = EquationString::remove_whitespaces(eq);
    let (left, right, operator) = eq.split().unwrap();
    assert_eq!(left.to_string(), "-1");
    assert_eq!(right.to_string(), "(-2^2^5)");
    assert_eq!(operator, Operators::Mult);
}

#[test]
pub fn test_split_eq_contains_parentheses() {
    let eq = "-1+(-2^2^5)*25+3^3";
    let eq = EquationString::remove_whitespaces(eq);
    let (left, right, operator) = eq.split().unwrap();
    assert_eq!(left.to_string(), "-1+(-2^2^5)*25");
    assert_eq!(right.to_string(), "3^3");
    assert_eq!(operator, Operators::Plus);

    let eq = "-1+(-2^2^5)*25";
    let eq = EquationString::remove_whitespaces(eq);
    let (left, right, operator) = eq.split().unwrap();
    assert_eq!(left.to_string(), "-1");
    assert_eq!(right.to_string(), "(-2^2^5)*25");
    assert_eq!(operator, Operators::Plus);
}

#[test]
pub fn lib_test_more() {
    let eq = "0.1+(2+3)*5/3*2+((5+2)+2)";
    let eq = EquationString::remove_whitespaces(eq);
    let (left, right, operator) = eq.split().unwrap();
    assert_eq!(left.to_string(), "0.1+(2+3)*5/3*2");
    assert_eq!(right.to_string(), "((5+2)+2)");
    assert_eq!(operator, Operators::Plus);

    let eq = "0.1+(2+3)*5/3*2";
    let eq = EquationString::remove_whitespaces(eq);
    let (left, right, operator) = eq.split().unwrap();
    assert_eq!(left.to_string(), "0.1");
    assert_eq!(right.to_string(), "(2+3)*5/3*2");
    assert_eq!(operator, Operators::Plus);

    let eq = "(2+3)*5/3*2";
    let eq = EquationString::remove_whitespaces(eq);
    let (left, right, operator) = eq.split().unwrap();
    assert_eq!(left.to_string(), "(2+3)*5/3");
    assert_eq!(right.to_string(), "2");
    assert_eq!(operator, Operators::Mult);

    let eq = "(2+3)*5/3";
    let eq = EquationString::remove_whitespaces(eq);
    let (left, right, operator) = eq.split().unwrap();
    assert_eq!(left.to_string(), "(2+3)*5");
    assert_eq!(right.to_string(), "3");
    assert_eq!(operator, Operators::Div);
}

fn split(eq: &str) -> Result<(String, String, Operators), SyntaxError> {
    let eq = EquationString::remove_whitespaces(eq);
    eq.split()
        .map(|(left, right, operator)| (left.to_string(), right.to_string(), operator))
}

fn parts(left: &str, right: &str, operator: Operators) -> Result<(String, String, Operators), SyntaxError> {
    Ok((String::from(left), String::from(right), operator))
}

#[test]
pub fn split_of_an_operand_is_a_leaf() {
    assert_eq!(split("578"), parts("578", "", Operators::Leaf));
    assert_eq!(split("-578"), parts("-578", "", Operators::Leaf));
    assert_eq!(split(""), parts("", "", Operators::Leaf));
    assert_eq!(split("(5)"), parts("5", "", Operators::Leaf));
    assert_eq!(split("((5))"), parts("5", "", Operators::Leaf));
    assert_eq!(split("12(3)"), parts("12(3)", "", Operators::Leaf));
    assert_eq!(split("-2(3)"), parts("-2(3)", "", Operators::Leaf));
    assert_eq!(split("(1)(2)"), parts("(1)(2)", "", Operators::Leaf));
}

#[test]
pub fn split_keeps_a_leading_product_whole() {
    assert_eq!(split("*1"), parts("*1", "", Operators::Leaf));
    assert_eq!(split("*2^3"), parts("*2^3", "", Operators::Leaf));
    assert_eq!(split("^2"), parts("^2", "", Operators::Leaf));
}

#[test]
pub fn split_takes_the_first_sum_and_the_last_product() {
    assert_eq!(split("1-2+3"), parts("1", "2+3", Operators::Minus));
    assert_eq!(split("8/4/2"), parts("8/4", "2", Operators::Div));
    assert_eq!(split("2^3^2"), parts("2^3", "2", Operators::Exp));
    assert_eq!(split("2*3^2"), parts("2", "3^2", Operators::Mult));
    assert_eq!(split("1++2"), parts("1", "+2", Operators::Plus));
    assert_eq!(split("--1"), parts("--1", "", Operators::Leaf));
    assert_eq!(split("1+"), parts("1", "", Operators::Plus));
}

#[test]
pub fn split_rewrites_a_minus_before_brackets() {
    assert_eq!(split("-(1+2)"), parts("-1", "(1+2)", Operators::Mult));
    assert_eq!(split("-()"), parts("-1", "()", Operators::Mult));
    assert_eq!(split("+(1+2)"), Err(SyntaxError::InvalidOperatorBeforeBracket));
    assert_eq!(split("2(1+2)"), Err(SyntaxError::InvalidOperatorBeforeBracket));
    assert_eq!(split("*(1+2)"), Err(SyntaxError::InvalidOperatorBeforeBracket));
}

#[test]
pub fn split_prefers_a_sum_behind_the_first_bracket() {
    assert_eq!(split("1-2+(3)-4-5"), parts("1-2+(3)", "4-5", Operators::Minus));
    assert_eq!(split("1-2+(3)*4"), parts("1", "2+(3)*4", Operators::Minus));
    assert_eq!(split("(1)*(2)/(3)"), parts("(1)*(2)", "(3)", Operators::Div));
    assert_eq!(split("(1)^(2)^(3)"), parts("(1)^(2)", "(3)", Operators::Exp));
    assert_eq!(split("(1)*-(2)"), parts("(1)", "-(2)", Operators::Mult));
    assert_eq!(split("*(1)2"), parts("", "(1)2", Operators::Mult));
}

#[test]
pub fn split_reports_unmatched_brackets() {
    assert_eq!(split("(1+2"), Err(SyntaxError::UnmatchedOpen));
    assert_eq!(split("1+2)"), Err(SyntaxError::UnmatchedClose));
    assert_eq!(split(")("), Err(SyntaxError::UnmatchedClose));
}
