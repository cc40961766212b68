use ihsk::text::replace;
use ihsk::utils::{SplitNonAlphanumeric, StringTools, VecTools};

#[test]
fn split_cursor_yields_words_in_order() {
    let mut it = SplitNonAlphanumeric::new(vec!['a', 'b', ' ', '-', 'c']);
    assert_eq!(it.next(), Some("ab".to_string()));
    assert_eq!(it.next(), Some("c".to_string()));
    assert_eq!(it.next(), None);
}

#[test]
fn replace_is_leftmost_nonoverlapping() {
    assert_eq!(replace("aaa", "aa", "b"), "ba");
    assert_eq!(replace("abcabc", "b", "xy"), "axycaxyc");
    assert_eq!(replace("abc", "d", "x"), "abc");
}

#[test]
fn split_words_drops_separators() {
    let parts = "foo bar-baz".split_non_alphanumeric();
    assert_eq!(parts, vec!["foo".to_string(), "bar".to_string(), "baz".to_string()]);
}

#[test]
fn split_words_keeps_underscores() {
    let parts = "_a b_c".split_non_alphanumeric();
    assert_eq!(parts, vec!["_a".to_string(), "b_c".to_string()]);
}

#[test]
fn split_words_of_separators_only_is_empty() {
    let parts = " -- ".split_non_alphanumeric();
    assert_eq!(parts, Vec::<String>::new());
}

#[test]
fn contains_slice_finds_interior_occurrence() {
    let v: Vec<u8> = b"hello".to_vec();
    assert!(v.contains_slice(b"ell"));
    assert!(v.contains_slice(b"h"));
}

#[test]
fn contains_slice_ignores_match_touching_the_end() {
    // An occurrence that runs to the very end is not reported: the test
    // is for an interior occurrence only.
    let v: Vec<u8> = b"hello".to_vec();
    assert!(!v.contains_slice(b"llo"));
    assert!(!v.contains_slice(b"hello"));
    assert!(!v.contains_slice(b"xyz"));
}

#[test]
fn complete_offers_hint_suffixes() {
    let hints = vec!["foobar".to_string(), "fizz".to_string(), "foo".to_string()];
    let (at, candidates) = ihsk::editor::complete(&hints, "x fo", 4);
    assert_eq!(at, 4);
    assert_eq!(candidates, vec!["obar".to_string(), "o".to_string()]);
}

#[test]
fn complete_with_empty_word_offers_nothing() {
    let hints = vec!["foo".to_string()];
    let (at, candidates) = ihsk::editor::complete(&hints, "x ", 2);
    assert_eq!(at, 0);
    assert!(candidates.is_empty());
}

#[test]
fn complete_word_starts_after_last_space() {
    let hints = vec!["length".to_string()];
    let (at, candidates) = ihsk::editor::complete(&hints, "a b len", 7);
    assert_eq!(at, 7);
    assert_eq!(candidates, vec!["gth".to_string()]);
}
