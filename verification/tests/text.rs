use web_modules::text::{contains, replace};

#[test]
fn replace_takes_occurrences_from_the_left() {
    assert_eq!(replace("aaaa", "aa", "b"), "bb");
    assert_eq!(replace("aaa", "aa", "b"), "ba");
    assert_eq!(replace("abcabc", "bc", ""), "aa");
    assert_eq!(replace("", "x", "y"), "");
}

#[test]
fn replace_keeps_text_without_occurrence() {
    assert_eq!(replace("script-src 'self'", "{nonce}", "n"), "script-src 'self'");
    assert_eq!(replace("ab", "abc", "n"), "ab");
}

#[test]
fn replace_of_the_empty_text_stands_between_all_characters() {
    assert_eq!(replace("ab", "", "-"), "-a-b-");
    assert_eq!(replace("", "", "-"), "-");
    assert_eq!(replace("ab", "", "-"), "ab".replace("", "-"));
}

#[test]
fn replace_goes_by_characters() {
    assert_eq!(replace("über ü", "ü", "ue"), "ueber ue");
    assert_eq!(replace("a→b→c", "→", ""), "abc");
}

#[test]
fn replacement_may_build_a_new_occurrence_if_it_is_short() {
    // A one-letter replacement completes the pattern around it; a longer one cannot.
    assert_eq!(replace("{no{nonce}ce}", "{nonce}", "n"), "{nonce}");
    assert!(!contains(&replace("{no{nonce}ce}", "{nonce}", "0123456"), "{nonce}"));
}

#[test]
fn replacement_keeps_surroundings() {
    assert_eq!(replace("x 'nonce-{nonce}' y", "{nonce}", "7f"), "x 'nonce-7f' y");
}

#[test]
fn contains_finds_first_last_and_none() {
    assert!(contains("abc", "a"));
    assert!(contains("abc", "c"));
    assert!(contains("abc", "abc"));
    assert!(!contains("abc", "abcd"));
    assert!(!contains("abc", "ac"));
    assert!(contains("", ""));
    assert!(contains("abc", ""));
}

#[test]
fn only_a_replacement_that_overlaps_can_leave_an_occurrence() {
    assert_eq!(replace("aabb", "ab", "-"), "a-b");
    assert_eq!(replace("aabb", "ab", ""), "ab");
    assert_eq!(replace("abb", "ab", "a"), "ab");
}
