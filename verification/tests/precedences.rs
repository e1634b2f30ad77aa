use eq_calc::operators::Operators;
use eq_calc::precedences::all_matcher::AllMatcher;
use eq_calc::precedences::high_precedence::HighPrecedenceMatcher;
use eq_calc::precedences::low_precedence::LowPrecedenceMatcher;
use eq_calc::precedences::medium_precedence::MediumPrecendenceMatcher;
use eq_calc::precedences::traits::MatchOperator;
use eq_calc::precedences::{
    classify, get_all_precedence_matchers, get_all_precedence_matchers2, is_operator,
    PrecedenceTier,
};

#[test]
fn classify_names_the_tier_of_each_operator() {
    assert_eq!(classify('+'), Some(PrecedenceTier::Low));
    assert_eq!(classify('-'), Some(PrecedenceTier::Low));
    assert_eq!(classify('*'), Some(PrecedenceTier::Medium));
    assert_eq!(classify('/'), Some(PrecedenceTier::Medium));
    assert_eq!(classify('^'), Some(PrecedenceTier::High));
    assert_eq!(classify('('), None);
    assert_eq!(classify('5'), None);
    assert_eq!(classify('e'), None);
}

#[test]
fn is_operator_agrees_with_classify() {
    for c in ['+', '-', '*', '/', '^', '(', ')', '0', 'π', ' ', '='] {
        assert_eq!(is_operator(c), classify(c).is_some());
    }
}

#[test]
fn tiers_are_ordered() {
    assert!(PrecedenceTier::Low < PrecedenceTier::Medium);
    assert!(PrecedenceTier::Medium < PrecedenceTier::High);
}

#[test]
fn matchers_come_from_lowest_to_highest() {
    let expected = vec![
        PrecedenceTier::Low,
        PrecedenceTier::Medium,
        PrecedenceTier::High,
    ];
    assert_eq!(get_all_precedence_matchers(), expected);
    assert_eq!(get_all_precedence_matchers2(), expected);
    let matchers = get_all_precedence_matchers();
    assert!(matchers[0].match_operator('-'));
    assert!(!matchers[0].match_operator('*'));
    assert!(matchers[1].match_operator('/'));
    assert!(!matchers[1].match_operator('^'));
    assert!(matchers[2].match_operator('^'));
    assert!(!matchers[2].match_operator('+'));
}

#[test]
fn each_matcher_matches_its_own_characters() {
    for c in ['+', '-'] {
        assert!(LowPrecedenceMatcher {}.match_operator(c));
        assert!(!MediumPrecendenceMatcher {}.match_operator(c));
        assert!(!HighPrecedenceMatcher.match_operator(c));
        assert!(AllMatcher.match_operator(c));
    }
    for c in ['*', '/'] {
        assert!(!LowPrecedenceMatcher {}.match_operator(c));
        assert!(MediumPrecendenceMatcher {}.match_operator(c));
        assert!(!HighPrecedenceMatcher.match_operator(c));
        assert!(AllMatcher.match_operator(c));
    }
    assert!(HighPrecedenceMatcher.match_operator('^'));
    assert!(AllMatcher.match_operator('^'));
    for c in ['1', '(', ')', 'x', '.', ' '] {
        assert!(!AllMatcher.match_operator(c));
    }
}

#[test]
fn to_enum_names_each_operator() {
    assert_eq!(Operators::to_enum('+'), Operators::Plus);
    assert_eq!(Operators::to_enum('-'), Operators::Minus);
    assert_eq!(Operators::to_enum('*'), Operators::Mult);
    assert_eq!(Operators::to_enum('/'), Operators::Div);
    assert_eq!(Operators::to_enum('^'), Operators::Exp);
    assert_eq!(Operators::to_enum('7'), Operators::Leaf);
    assert_eq!(Operators::to_enum('('), Operators::Leaf);
}
