use smiles::scanner::{Action, Error, Scanner};
use smiles::string;

#[test]
fn scanner_new_starts_at_zero() {
    let scanner = Scanner::new("abc");
    assert_eq!(0, scanner.cursor());
    assert!(!scanner.is_done());
}

#[test]
fn scanner_empty_input_is_done() {
    let scanner = Scanner::new("");
    assert!(scanner.is_done());
    assert_eq!(None, scanner.peek());
}

#[test]
fn scanner_peek_does_not_advance() {
    let scanner = Scanner::new("ab");
    assert_eq!(Some(&'a'), scanner.peek());
    assert_eq!(Some(&'a'), scanner.peek());
    assert_eq!(0, scanner.cursor());
}

#[test]
fn scanner_pop_advances() {
    let mut scanner = Scanner::new("ab");
    assert_eq!(Some('a'), scanner.pop());
    assert_eq!(Some('b'), scanner.pop());
    assert_eq!(None, scanner.pop());
    assert_eq!(2, scanner.cursor());
    assert!(scanner.is_done());
}

#[test]
fn scanner_take_matching() {
    let mut scanner = Scanner::new("ab");
    assert!(scanner.take(&'a'));
    assert_eq!(1, scanner.cursor());
}

#[test]
fn scanner_take_non_matching_leaves_cursor() {
    let mut scanner = Scanner::new("ab");
    assert!(!scanner.take(&'b'));
    assert_eq!(0, scanner.cursor());
    assert!(!Scanner::new("").take(&'a'));
}

#[test]
fn scanner_transform_some_advances() {
    let mut scanner = Scanner::new("7a");
    let digit = scanner.transform(|c| c.to_digit(10));
    assert_eq!(Some(7), digit);
    assert_eq!(1, scanner.cursor());
}

#[test]
fn scanner_transform_none_leaves_cursor() {
    let mut scanner = Scanner::new("a7");
    let digit = scanner.transform(|c| c.to_digit(10));
    assert_eq!(None, digit);
    assert_eq!(0, scanner.cursor());
}

fn ab_callback(sequence: &str) -> Option<Action<u32>> {
    match sequence {
        "a" => Some(Action::Require),
        "ab" => Some(Action::Return(1)),
        _ => None,
    }
}

#[test]
fn scanner_scan_returns_on_match() {
    let mut scanner = Scanner::new("abc");
    let result = scanner.scan(ab_callback);
    assert!(matches!(result, Ok(Some(1))));
    assert_eq!(2, scanner.cursor());
}

#[test]
fn scanner_scan_require_hits_end_of_line() {
    let mut scanner = Scanner::new("a");
    let result = scanner.scan(ab_callback);
    assert_eq!(Err(Error::EndOfLine), result);
}

#[test]
fn scanner_scan_require_hits_bad_character() {
    let mut scanner = Scanner::new("ax");
    let result = scanner.scan(ab_callback);
    assert_eq!(Err(Error::Character(1)), result);
}

#[test]
fn scanner_scan_returns_last_request() {
    let mut scanner = Scanner::new("aab");
    let result = scanner.scan(|sequence: &str| {
        if sequence.chars().all(|c| c == 'a') {
            Some(Action::Request(sequence.len()))
        } else {
            None
        }
    });
    assert!(matches!(result, Ok(Some(2))));
    assert_eq!(2, scanner.cursor());
}

#[test]
fn scanner_scan_declines_immediately() {
    let mut scanner = Scanner::new("xyz");
    let result = scanner.scan(ab_callback);
    assert!(matches!(result, Ok(None)));
    assert_eq!(0, scanner.cursor());
}

#[test]
fn string_accepts_star_runs() {
    assert!(string("*"));
    assert!(string("***"));
}

#[test]
fn string_rejects_empty_input() {
    assert!(!string(""));
}

#[test]
fn string_rejects_other_characters() {
    assert!(!string("*a"));
    assert!(!string("a**"));
    assert!(!string("**a*"));
}
