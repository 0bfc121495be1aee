use cell_colony::labels::labeled_number;
use cell_colony::parse::parse_number;
use cell_colony::ranking::rank_descending;
use cell_colony::text::{chars_of, contains_str, decimal_text, replace_text};

fn num(s: &str) -> Option<i64> {
    let cs = chars_of(s);
    parse_number(&cs, 0, cs.len())
}

#[test]
fn numbers_in_thousandths() {
    assert_eq!(num("42"), Some(42_000));
    assert_eq!(num("-0.5"), Some(-500));
    assert_eq!(num("+7."), Some(7_000));
    assert_eq!(num(".25"), Some(250));
    assert_eq!(num("1.23456"), Some(1_234));
    assert_eq!(num("99999999999999999999"), Some(1_000_000_000_000_000));
    assert_eq!(num("-99999999999999999999"), Some(-1_000_000_000_000_000));
}

#[test]
fn non_numbers_are_rejected() {
    assert_eq!(num(""), None);
    assert_eq!(num("."), None);
    assert_eq!(num("-"), None);
    assert_eq!(num("1.2.3"), None);
    assert_eq!(num("12a"), None);
    assert_eq!(num("1e5"), None);
    assert_eq!(num(" 1"), None);
}

#[test]
fn labeled_numbers_from_replies() {
    let reply = "Thinking...\n  RELEVANCE: 0.8 (high)\nENERGY_IMPACT: -3.5\nRELEVANCE: 0.1";
    assert_eq!(labeled_number(reply, "ENERGY_IMPACT:"), Some(-3_500));
    assert_eq!(labeled_number(reply, "MISSING:"), None);
    assert_eq!(labeled_number("RELEVANCE: 0.75\n", "RELEVANCE:"), Some(750));
    assert_eq!(labeled_number("RELEVANCE: high", "RELEVANCE:"), None);
    assert_eq!(labeled_number("SCORE: 4: extra", "SCORE:"), Some(4_000));
}

#[test]
fn ranking_is_stable_and_descending() {
    let v = vec![(5i128, 0usize), (9, 1), (5, 2), (-1, 3), (9, 4)];
    let r = rank_descending(&v);
    assert_eq!(r, vec![(9, 1), (9, 4), (5, 0), (5, 2), (-1, 3)]);
    assert!(rank_descending(&Vec::new()).is_empty());
}

#[test]
fn text_search_and_replace() {
    assert!(contains_str("scale solar grids", "solar"));
    assert!(contains_str("abc", ""));
    assert!(!contains_str("ab", "abc"));
    assert_eq!(replace_text("aaa", "aa", "b"), "ba");
    assert_eq!(replace_text("none here", "quantum", "advanced"), "none here");
    assert_eq!(replace_text("ünïcode quantum", "quantum", "advanced"), "ünïcode advanced");
}

#[test]
fn decimal_texts() {
    assert_eq!(decimal_text(0), "0");
    assert_eq!(decimal_text(-40), "-40");
    assert_eq!(decimal_text(1234567), "1234567");
    assert_eq!(decimal_text(i64::MIN), i64::MIN.to_string());
    assert_eq!(decimal_text(i64::MAX), i64::MAX.to_string());
}
