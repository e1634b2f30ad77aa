use eq_calc::eq_sanitize::EqSanitize;
use eq_calc::errors::ParenError;
use eq_calc::parentheses::{
    regroup_according_to_precedence, regroup_to_left, regroup_to_right, FindParentheses,
    ParenthesesFinder, SplitParentheses,
};
use eq_calc::EquationString;

#[test]
pub fn test_find_first_parentheses() {
    let eq = "(1+3+5)";
    let eq = eq.chars().collect::<EquationString>();
    let (left, right) = ParenthesesFinder::find_first(eq).unwrap().unwrap();
    assert_eq!(left, 0);
    assert_eq!(right, 6);

    let eq = "1+(3+5)+2";
    let eq = eq.chars().collect::<EquationString>();
    let (left, right) = ParenthesesFinder::find_first(eq).unwrap().unwrap();
    assert_eq!(left, 2);
    assert_eq!(right, 6);

    let eq = "1+3+5";
    let eq = eq.chars().collect::<EquationString>();
    let res = ParenthesesFinder::find_first(eq).unwrap();
    assert_eq!(res, None);

    let eq = "1+343)";
    let eq = eq.chars().collect::<EquationString>();
    let err = ParenthesesFinder::find_first(eq)
        .expect_err("Close bracket found without open brackets");
    assert_eq!(err, ParenError::UnmatchedClose);

    let eq = "1+(343";
    let eq = eq.chars().collect::<EquationString>();
    let err = ParenthesesFinder::find_first(eq).expect_err("Open bracket not closed");
    assert_eq!(err, ParenError::UnmatchedOpen);
}

#[test]
pub fn test_find_last_parentheses() {
    let eq = "(1+3+5)";
    let eq = eq.chars().collect::<EquationString>();
    let (left, right) = ParenthesesFinder::find_last(eq).unwrap().unwrap();
    assert_eq!(left, 0);
    assert_eq!(right, 6);

    let eq = "(1+3+5)+((1+3+5))+3/13*3";
    let eq = eq.chars().collect::<EquationString>();
    let (left, right) = ParenthesesFinder::find_last(eq).unwrap().unwrap();
    assert_eq!(left, 8);
    assert_eq!(right, 16);
}

#[test]
pub fn test_regroup_to_left_low_precedence() {
    let left = "(1+3)";
    let right = "-1*55";
    let left = EquationString::remove_whitespaces(left);
    let right = EquationString::remove_whitespaces(right);
    let (left_after, right_after) = regroup_to_left(left, right);
    assert_eq!(left_after.to_string(), "(1+3)");
    assert_eq!(right_after.to_string(), "-1*55");

    let left = "(1+3)";
    let right = "*1*-2^2+13+5";
    let left = EquationString::remove_whitespaces(left);
    let right = EquationString::remove_whitespaces(right);
    let (left_after, right_after) = regroup_to_left(left, right);
    assert_eq!(left_after.to_string(), "(1+3)*1*-2^2");
    assert_eq!(right_after.to_string(), "+13+5");

    let left = "(1+3)";
    let right = "*1*-2^2/(13+5)+1";
    let left = EquationString::remove_whitespaces(left);
    let right = EquationString::remove_whitespaces(right);
    let (left_after, right_after) = regroup_to_left(left, right);
    assert_eq!(left_after.to_string(), "(1+3)*1*-2^2/(13+5)");
    assert_eq!(right_after.to_string(), "+1");
}

#[test]
pub fn test_regroup_to_left_medium_precedence() {
    let left = "(1+3)";
    let right = "*1*-2^2/(13+5)^1";
    let left = EquationString::remove_whitespaces(left);
    let right = EquationString::remove_whitespaces(right);
    let (left_after, right_after) = regroup_to_left(left, right);
    assert_eq!(left_after.to_string(), "(1+3)*1*-2^2/(13+5)^1");
    assert_eq!(right_after.to_string(), "");

    let left = "(1+3)";
    let right = "*1*-2^2/-2^1";
    let left = EquationString::remove_whitespaces(left);
    let right = EquationString::remove_whitespaces(right);
    let (left_after, right_after) = regroup_to_left(left, right);
    assert_eq!(left_after.to_string(), "(1+3)*1*-2^2/-2^1");
    assert_eq!(right_after.to_string(), "");
}

#[test]
pub fn test_regroup_to_left_high_precedence() {
    let left = "(1+3)";
    let right = "^1^(1/3)";
    let left = EquationString::remove_whitespaces(left);
    let right = EquationString::remove_whitespaces(right);
    let (left_after, right_after) = regroup_to_left(left, right);
    assert_eq!(left_after.to_string(), "(1+3)^1^(1/3)");
    assert_eq!(right_after.to_string(), "");
}

#[test]
pub fn test_regroup_to_right_low_precedence() {
    let left = "-2*2/5^7+(1+3)";
    let left = EquationString::remove_whitespaces(left);
    let (left_after, right_after) = regroup_to_right(left);
    assert_eq!(left_after.to_string(), "-2*2/5^7");
    assert_eq!(right_after.to_string(), "+(1+3)");

    let left = "-2*2/5^7*(5+2)+(1+3)";
    let left = EquationString::remove_whitespaces(left);
    let (left_after, right_after) = regroup_to_right(left);
    assert_eq!(left_after.to_string(), "-2*2/5^7*(5+2)");
    assert_eq!(right_after.to_string(), "+(1+3)");
}

#[test]
pub fn test_regroup_to_right_medium_precedence() {
    let left = "-2*2/5^7*(5+2)^(1+3)";
    let left = EquationString::remove_whitespaces(left);
    let (left_after, right_after) = regroup_to_right(left);
    assert_eq!(left_after.to_string(), "-2*2/5^7");
    assert_eq!(right_after.to_string(), "*(5+2)^(1+3)");

    let left = "-2*2/5^7*5/2^(1+3)";
    let left = EquationString::remove_whitespaces(left);
    let (left_after, right_after) = regroup_to_right(left);
    assert_eq!(left_after.to_string(), "-2*2/5^7*5");
    assert_eq!(right_after.to_string(), "/2^(1+3)");
}

#[test]
pub fn test_regroup_to_right_high_precedence() {
    let left = "5^7^-(5+2/1+3)";
    let left = EquationString::remove_whitespaces(left);
    let (left_after, right_after) = regroup_to_right(left);
    assert_eq!(left_after.to_string(), "5^7");
    assert_eq!(right_after.to_string(), "^-(5+2/1+3)");
}

#[test]
pub fn find_first_reports_the_earlier_failure() {
    let eq = ")(".chars().collect::<EquationString>();
    assert_eq!(ParenthesesFinder::find_first(eq), Err(ParenError::UnmatchedClose));
    let eq = "(()".chars().collect::<EquationString>();
    assert_eq!(ParenthesesFinder::find_first(eq), Err(ParenError::UnmatchedOpen));
    let eq = "())(".chars().collect::<EquationString>();
    assert_eq!(ParenthesesFinder::find_first(eq), Err(ParenError::UnmatchedClose));
    let eq = "".chars().collect::<EquationString>();
    assert_eq!(ParenthesesFinder::find_first(eq), Ok(None));
    let eq = "(1)(2)".chars().collect::<EquationString>();
    assert_eq!(ParenthesesFinder::find_first(eq), Ok(Some((0, 2))));
    let eq = "((1)(2))+(3)".chars().collect::<EquationString>();
    assert_eq!(ParenthesesFinder::find_first(eq), Ok(Some((0, 7))));
}

#[test]
pub fn find_last_reads_from_the_end() {
    let eq = "1+3+5".chars().collect::<EquationString>();
    assert_eq!(ParenthesesFinder::find_last(eq), Ok(None));
    let eq = "".chars().collect::<EquationString>();
    assert_eq!(ParenthesesFinder::find_last(eq), Ok(None));
    let eq = "(1)(2)".chars().collect::<EquationString>();
    assert_eq!(ParenthesesFinder::find_last(eq), Ok(Some((3, 5))));
    let eq = "1+(343".chars().collect::<EquationString>();
    assert_eq!(ParenthesesFinder::find_last(eq), Err(ParenError::UnmatchedClose));
    let eq = "1+343)".chars().collect::<EquationString>();
    assert_eq!(ParenthesesFinder::find_last(eq), Err(ParenError::UnmatchedOpen));
}

#[test]
pub fn regroup_to_right_without_operator_keeps_the_text_whole() {
    let left = EquationString::remove_whitespaces("2(3)");
    let (left_after, right_after) = regroup_to_right(left);
    assert_eq!(left_after.to_string(), "2(3)");
    assert_eq!(right_after.to_string(), "");

    let left = EquationString::remove_whitespaces("");
    let (left_after, right_after) = regroup_to_right(left);
    assert_eq!(left_after.to_string(), "");
    assert_eq!(right_after.to_string(), "");
}

#[test]
pub fn regroup_to_right_takes_a_sign_behind_the_first_character_as_operator() {
    let left = EquationString::remove_whitespaces("*-(1)(2)");
    let (left_after, right_after) = regroup_to_right(left);
    assert_eq!(left_after.to_string(), "*");
    assert_eq!(right_after.to_string(), "-(1)(2)");
}

#[test]
pub fn regroup_to_right_splits_at_a_leading_product() {
    let left = EquationString::remove_whitespaces("*(1)2");
    let (left_after, right_after) = regroup_to_right(left);
    assert_eq!(left_after.to_string(), "");
    assert_eq!(right_after.to_string(), "*(1)2");
}

#[test]
pub fn regroup_according_to_precedence_tries_the_right_part_first() {
    let left = EquationString::remove_whitespaces("1-2+(3)");
    let right = EquationString::remove_whitespaces("*4-5");
    let (left_after, right_after) = regroup_according_to_precedence(left, right);
    assert_eq!(left_after.to_string(), "1-2+(3)*4");
    assert_eq!(right_after.to_string(), "-5");

    let left = EquationString::remove_whitespaces("1-2+(3)");
    let right = EquationString::remove_whitespaces("*4");
    let (left_after, right_after) = regroup_according_to_precedence(left, right);
    assert_eq!(left_after.to_string(), "1");
    assert_eq!(right_after.to_string(), "-2+(3)*4");

    let left = EquationString::remove_whitespaces("2^(3)");
    let right = EquationString::remove_whitespaces("");
    let (left_after, right_after) = regroup_according_to_precedence(left, right);
    assert_eq!(left_after.to_string(), "2");
    assert_eq!(right_after.to_string(), "^(3)");
}

#[test]
pub fn split_by_parentheses_divides_behind_the_bracket() {
    let eq = EquationString::remove_whitespaces("-1+(-2^2^5)*25+3^3");
    let (left, right) = eq.split_by_parentheses(3, 10);
    assert_eq!(left.to_string(), "-1+(-2^2^5)*25");
    assert_eq!(right.to_string(), "+3^3");

    let eq = EquationString::remove_whitespaces("(2+3)*5/3");
    let (left, right) = eq.split_by_parentheses(0, 4);
    assert_eq!(left.to_string(), "(2+3)*5");
    assert_eq!(right.to_string(), "/3");
}
