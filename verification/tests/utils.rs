use rust_args_parser::suggest::levenshtein;
use rust_args_parser::util::{looks_like_number_token, strip_ansi_len};

#[test]
fn looks_like_number_token_examples() {
    assert!(looks_like_number_token("-1"));
    assert!(looks_like_number_token("-.5"));
    assert!(looks_like_number_token("+3.14"));
    assert!(looks_like_number_token("1e3"));
    assert!(looks_like_number_token("-1.2e-3"));
    assert!(!looks_like_number_token("-e10"));
    assert!(!looks_like_number_token("--1"));
}

#[test]
fn strip_ansi_len_ignores_codes() {
    let s = "\x1b[1mHello\x1b[0m world";
    assert_eq!(strip_ansi_len(s), "Hello world".len());
}

#[test]
fn levenshtein_known_distances() {
    assert_eq!(levenshtein("", ""), 0);
    assert_eq!(levenshtein("abc", ""), 3);
    assert_eq!(levenshtein("", "abcd"), 4);
    assert_eq!(levenshtein("kitten", "sitting"), 3);
    assert_eq!(levenshtein("helme", "helpme"), 1);
    assert_eq!(levenshtein("hlep", "help"), 2);
    assert_eq!(levenshtein("stat", "status"), 2);
}
