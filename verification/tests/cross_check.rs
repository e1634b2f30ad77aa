//! The library scans a text by index. Here the same steps are taken by
//! cutting the text into pieces, one character or one bracket pair at a
//! time, and the two are held against each other on every short text.

use eq_calc::eq_sanitize::EqSanitize;
use eq_calc::errors::SyntaxError;
use eq_calc::operators::{Operators, SplitOperator};
use eq_calc::parentheses::{
    regroup_to_left, regroup_to_right, FindParentheses, ParenthesesFinder,
};
use eq_calc::{EquationString, FullSplit};

fn is_any(c: char) -> bool {
    matches!(c, '+' | '-' | '*' | '/' | '^')
}

fn is_low(c: char) -> bool {
    matches!(c, '+' | '-')
}

fn is_medium(c: char) -> bool {
    matches!(c, '*' | '/')
}

fn is_high(c: char) -> bool {
    matches!(c, '^')
}

fn first_pair(eq: &[char]) -> Result<Option<(usize, usize)>, SyntaxError> {
    let mut opened = 0;
    let mut left: Option<usize> = None;
    let mut right: Option<usize> = None;
    for (i, c) in eq.iter().enumerate() {
        if *c == '(' {
            opened += 1;
            if left.is_none() {
                left = Some(i)
            }
        } else if *c == ')' {
            if opened == 0 {
                return Err(SyntaxError::UnmatchedClose);
            }
            opened -= 1;
            if right.is_none() && opened == 0 {
                right = Some(i);
            }
        }
    }
    if opened > 0 {
        return Err(SyntaxError::UnmatchedOpen);
    }
    if left.is_none() && right.is_none() {
        return Ok(None);
    }
    Ok(Some((left.unwrap(), right.unwrap())))
}

fn last_pair(eq: &[char]) -> Result<Option<(usize, usize)>, SyntaxError> {
    let mut closed = 0;
    let mut left: Option<usize> = None;
    let mut right: Option<usize> = None;
    for (i, c) in eq.iter().enumerate().rev() {
        if *c == ')' {
            closed += 1;
            if right.is_none() {
                right = Some(i)
            }
        } else if *c == '(' {
            if closed == 0 {
                return Err(SyntaxError::UnmatchedClose);
            }
            closed -= 1;
            if left.is_none() && closed == 0 {
                left = Some(i);
            }
        }
    }
    if closed > 0 {
        return Err(SyntaxError::UnmatchedOpen);
    }
    if left.is_none() && right.is_none() {
        return Ok(None);
    }
    Ok(Some((left.unwrap(), right.unwrap())))
}

/// Moves pieces from the front of `right` to the back of `left` up to the
/// first `+` or `-` that is no sign. `None` if there is none.
fn forward(left: &[char], right: &[char]) -> Option<(Vec<char>, Vec<char>)> {
    let mut left_after = left.to_vec();
    let mut right_after = right.to_vec();
    let mut previous_char: Option<char> = None;
    loop {
        if right_after.is_empty() {
            return None;
        }
        let current_char = right_after[0];
        if is_low(current_char) {
            if previous_char.is_some() && is_any(previous_char.unwrap()) {
                previous_char = Some(current_char);
                left_after.push(current_char);
                right_after = right_after[1..].to_vec();
            } else {
                return Some((left_after, right_after));
            }
        } else if current_char == '(' {
            let (open, close) = first_pair(&right_after).unwrap().unwrap();
            previous_char = Some(right_after[close]);
            left_after.extend_from_slice(&right_after[open..close + 1]);
            right_after = right_after[close + 1..].to_vec();
        } else {
            previous_char = Some(current_char);
            left_after.push(current_char);
            right_after = right_after[1..].to_vec();
        }
    }
}

/// Moves pieces from the back of `left` to the front of the right part up to
/// the last character of the tier. `None` if there is none.
fn backward(left: &[char], tier: fn(char) -> bool) -> Option<(Vec<char>, Vec<char>)> {
    let mut left_after = left.to_vec();
    let mut right_after: Vec<char> = Vec::new();
    loop {
        if left_after.is_empty() {
            return None;
        }
        let current_char = left_after[left_after.len() - 1];
        if tier(current_char) {
            right_after.insert(0, current_char);
            left_after.pop();
            return Some((left_after, right_after));
        } else if current_char == ')' {
            let (open, close) = last_pair(&left_after).unwrap().unwrap();
            let mut pair = left_after[open..close + 1].to_vec();
            pair.extend_from_slice(&right_after);
            right_after = pair;
            left_after = left_after[..open].to_vec();
        } else {
            right_after.insert(0, current_char);
            left_after.pop();
        }
    }
}

fn to_left(left: &[char], right: &[char]) -> (Vec<char>, Vec<char>) {
    match forward(left, right) {
        Some(parts) => parts,
        None => {
            let mut all = left.to_vec();
            all.extend_from_slice(right);
            (all, Vec::new())
        }
    }
}

fn to_right(left: &[char]) -> (Vec<char>, Vec<char>) {
    if left.is_empty() {
        return (Vec::new(), Vec::new());
    }
    let skipped = if left[0] != '(' { 1 } else { 0 };
    if let Some(parts) = forward(&left[..skipped], &left[skipped..]) {
        return parts;
    }
    if let Some(parts) = backward(left, is_medium) {
        return parts;
    }
    if let Some(parts) = backward(left, is_high) {
        return parts;
    }
    (left.to_vec(), Vec::new())
}

fn by_precedence(eq: &[char]) -> (Vec<char>, Vec<char>, Operators) {
    let mut left: Vec<char> = Vec::new();
    let mut right = eq.to_vec();
    loop {
        if right.is_empty() {
            break;
        }
        let found = right[1..].iter().position(|c| is_low(*c)).map(|i| i + 1);
        if let Some(index) = found {
            if !is_any(right[index - 1]) {
                left.extend_from_slice(&right[..index]);
                return (left, right[index + 1..].to_vec(), Operators::to_enum(right[index]));
            } else {
                left.extend_from_slice(&right[..index]);
                right = right[index..].to_vec();
            }
        } else {
            break;
        }
    }
    for tier in [is_medium as fn(char) -> bool, is_high as fn(char) -> bool] {
        if let Some(index) = eq.iter().rposition(|c| tier(*c)) {
            if index == 0 {
                return (eq.to_vec(), Vec::new(), Operators::Leaf);
            }
            return (
                eq[..index].to_vec(),
                eq[index + 1..].to_vec(),
                Operators::to_enum(eq[index]),
            );
        }
    }
    (eq.to_vec(), Vec::new(), Operators::Leaf)
}

fn full(eq: &[char]) -> Result<(Vec<char>, Vec<char>, Operators), SyntaxError> {
    let (open, close) = match first_pair(eq)? {
        None => return Ok(by_precedence(eq)),
        Some(pair) => pair,
    };
    if open == 0 && close == eq.len() - 1 {
        return full(&eq[1..eq.len() - 1]);
    }
    if open == 1 && close == eq.len() - 1 {
        return if eq[0] == '-' {
            Ok((vec!['-', '1'], eq[1..].to_vec(), Operators::Mult))
        } else {
            Err(SyntaxError::InvalidOperatorBeforeBracket)
        };
    }
    let (mut left, mut right) = (eq[..close + 1].to_vec(), eq[close + 1..].to_vec());
    if !right.is_empty() {
        (left, right) = to_left(&left, &right);
    }
    if right.is_empty() {
        (left, right) = to_right(&left);
    }
    if right.is_empty() {
        return Ok((left, right, Operators::Leaf));
    }
    Ok((left, right[1..].to_vec(), Operators::to_enum(right[0])))
}

fn each_text(alphabet: &[char], length: usize, prefix: &mut Vec<char>, visit: &mut dyn FnMut(&Vec<char>)) {
    visit(prefix);
    if prefix.len() == length {
        return;
    }
    for c in alphabet {
        prefix.push(*c);
        each_text(alphabet, length, prefix, visit);
        prefix.pop();
    }
}

fn is_balanced(eq: &[char]) -> bool {
    first_pair(eq).is_ok()
}

#[test]
fn bracket_pairs_found_both_ways_agree() {
    let mut count = 0;
    each_text(&['(', ')', '1', '+'], 8, &mut Vec::new(), &mut |eq| {
        let first = ParenthesesFinder::find_first(eq.clone()).map_err(|e| e.to_syntax_error());
        let last = ParenthesesFinder::find_last(eq.clone()).map_err(|e| e.to_syntax_error());
        assert_eq!(first, first_pair(eq), "{:?}", eq);
        assert_eq!(last, last_pair(eq), "{:?}", eq);
        assert_eq!(first.is_ok(), last.is_ok(), "{:?}", eq);
        count += 1;
    });
    assert_eq!(count, 87381);
}

#[test]
fn regrouping_found_both_ways_agrees() {
    let alphabet = ['1', '+', '-', '*', '^', '(', ')'];
    let mut count = 0;
    each_text(&alphabet, 6, &mut Vec::new(), &mut |eq| {
        if !is_balanced(eq) {
            return;
        }
        count += 1;
        assert_eq!(regroup_to_right(eq.clone()), to_right(eq), "{:?}", eq);
        for cut in 0..=eq.len() {
            if is_balanced(&eq[cut..]) {
                assert_eq!(
                    regroup_to_left(eq[..cut].to_vec(), eq[cut..].to_vec()),
                    to_left(&eq[..cut], &eq[cut..]),
                    "{:?} {}",
                    eq,
                    cut
                );
            }
        }
    });
    assert!(count > 30000);
}

#[test]
fn splits_found_both_ways_agree() {
    let alphabet = ['1', '+', '-', '*', '/', '^', '(', ')'];
    let mut count = 0;
    each_text(&alphabet, 6, &mut Vec::new(), &mut |eq| {
        assert_eq!(eq.split(), full(eq), "{:?}", eq);
        if !eq.contains(&'(') && !eq.contains(&')') {
            assert_eq!(eq.split_by_precedence(), by_precedence(eq), "{:?}", eq);
        }
        count += 1;
    });
    assert_eq!(count, 299593);
}

#[test]
fn every_split_gives_shorter_operands_that_make_up_the_text() {
    let alphabet = ['1', '+', '-', '*', '^', '(', ')'];
    each_text(&alphabet, 7, &mut Vec::new(), &mut |eq| {
        if let Ok((left, right, operator)) = eq.split() {
            if operator == Operators::Leaf {
                assert!(right.is_empty(), "{:?}", eq);
                assert!(left.len() <= eq.len(), "{:?}", eq);
            } else {
                assert!(left.len() < eq.len(), "{:?}", eq);
                assert!(right.len() < eq.len(), "{:?}", eq);
                assert!(is_balanced(&left), "{:?}", eq);
                assert!(is_balanced(&right), "{:?}", eq);
            }
        } else {
            assert!(!is_balanced(eq) || eq.split() == Err(SyntaxError::InvalidOperatorBeforeBracket));
        }
    });
}

fn mark_constants(eq: &[char]) -> Vec<char> {
    let mut new_eq: Vec<char> = Vec::new();
    let mut previous_char: Option<char> = None;
    for current_char in eq {
        if matches!(*current_char, 'e' | 'π' | 'p' | 'i')
            && previous_char.is_some()
            && previous_char.unwrap().is_digit(10)
        {
            new_eq.push('*');
        }
        previous_char = Some(*current_char);
        new_eq.push(*current_char);
    }
    new_eq
}

fn mark_brackets(eq: &[char]) -> Vec<char> {
    let mut new_eq: Vec<char> = Vec::new();
    let mut eq = eq.to_vec();
    let mut previous_char: Option<char> = None;
    loop {
        if eq.is_empty() {
            break;
        }
        let current_char = eq[0];
        if current_char == '('
            && previous_char.is_some()
            && !is_any(previous_char.unwrap())
            && previous_char.unwrap() != '('
        {
            previous_char = Some(current_char);
            new_eq.push('*');
            new_eq.push(current_char);
        } else if current_char == ')' && eq.len() > 1 {
            if !is_any(eq[1]) {
                previous_char = Some('*');
                new_eq.push(current_char);
                new_eq.push('*');
            } else {
                previous_char = Some(current_char);
                new_eq.push(current_char);
            }
        } else {
            previous_char = Some(current_char);
            new_eq.push(current_char);
        }
        eq = eq[1..].to_vec();
    }
    new_eq
}

#[test]
fn products_written_out_both_ways_agree() {
    let alphabet = ['5', 'e', 'p', '(', ')', '+', '*'];
    let mut count = 0;
    each_text(&alphabet, 7, &mut Vec::new(), &mut |eq| {
        let marked: EquationString = eq.handle_special_character_multiplication().unwrap();
        assert_eq!(marked, mark_constants(eq), "{:?}", eq);
        let done: EquationString = eq.handle_direct_multiplication().unwrap();
        assert_eq!(done, mark_brackets(eq), "{:?}", eq);
        let both: EquationString = marked.handle_direct_multiplication().unwrap();
        let again: EquationString = both
            .handle_special_character_multiplication()
            .unwrap()
            .handle_direct_multiplication()
            .unwrap();
        assert_eq!(again, both, "{:?}", eq);
        count += 1;
    });
    assert_eq!(count, 960800);
}
