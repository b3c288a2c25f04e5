//! Fuzzy matcher behaviour: substring preference, subsequence scoring,
//! trimming, and the no-match cases.

use sam_core::search::fuzzy_score;

#[test]
fn exact_substring_scores_one_million() {
    assert_eq!(fuzzy_score("abc", "abc"), Some(1_000_000));
}

#[test]
fn longer_haystack_with_substring_scores_lower() {
    assert_eq!(fuzzy_score("xabcy", "abc"), Some(1_000_000 - 2));
    assert_eq!(fuzzy_score("abcy", "abc"), Some(1_000_000 - 1));
}

#[test]
fn needle_is_trimmed_before_matching() {
    assert_eq!(fuzzy_score("abc", "  abc  "), Some(1_000_000));
    assert_eq!(fuzzy_score("abc", "\tabc\n"), Some(1_000_000));
}

#[test]
fn no_match_returns_none() {
    assert_eq!(fuzzy_score("abc", "xyz"), None);
}

#[test]
fn empty_needle_never_matches() {
    assert_eq!(fuzzy_score("abc", ""), None);
}

#[test]
fn whitespace_needle_never_matches() {
    assert_eq!(fuzzy_score("abc", "   "), None);
    assert_eq!(fuzzy_score("", "   "), None);
}

#[test]
fn matching_is_case_sensitive() {
    assert_eq!(fuzzy_score("abc", "ABC"), None);
}

#[test]
fn scattered_subsequence_is_scored_per_character() {
    // 'a' at 0: +10 +20 (start of string); 'b' at 2: +10 -2 (gap of one)
    // +20 (after '_'); 'c' at 4: +10 -2 +20; first match at 0 subtracts 0.
    assert_eq!(fuzzy_score("a_b_c", "abc"), Some(86));
}

#[test]
fn substring_outscores_scattered_subsequence() {
    let verbatim = fuzzy_score("abc", "abc").unwrap();
    let scattered = fuzzy_score("a_b_c", "abc").unwrap();
    assert!(verbatim > scattered);
}

#[test]
fn contiguous_run_earns_run_bonus() {
    // Needle "abc" in "ab_c": 'a' at 0: +10 +20 (start); 'b' at 1:
    // +10 +15 (contiguous run); 'c' at 3: +10 -2 (gap) +20 (after '_').
    assert_eq!(fuzzy_score("ab_c", "abc"), Some(83));
}

#[test]
fn lower_to_upper_case_change_is_a_word_boundary() {
    // Needle "fB" in "fooBar": 'f' at 0: +10 +20; 'B' at 3: +10, gap of
    // two costs 4, +20 boundary after lowercase 'o' -> 26; total 56.
    assert_eq!(fuzzy_score("fooBar", "fB"), Some(56));
}

#[test]
fn first_unmatched_needle_character_fails_the_match() {
    assert_eq!(fuzzy_score("abc", "abd"), None);
    assert_eq!(fuzzy_score("abc", "aa"), None);
}

#[test]
fn later_first_match_scores_lower() {
    // "za" vs needle "a": substring, so use subsequence-only needles.
    let early = fuzzy_score("ax_bx", "ab").unwrap();
    let late = fuzzy_score("x_axb", "ab").unwrap();
    assert!(early > late);
}

#[test]
fn verbatim_score_counts_utf8_bytes() {
    // An exact match scores the full million; extra haystack characters
    // cost their UTF-8 byte width: one for 'x', two for 'é', three for '€'.
    assert_eq!(fuzzy_score("héllo", "héllo"), Some(1_000_000));
    assert_eq!(fuzzy_score("xhéllo", "héllo"), Some(1_000_000 - 1));
    assert_eq!(fuzzy_score("éabc", "abc"), Some(1_000_000 - 2));
    assert_eq!(fuzzy_score("€abc", "abc"), Some(1_000_000 - 3));
}

#[test]
fn byte_shorter_haystack_outranks_byte_longer_one() {
    // "abcxy" is five bytes; "€abc" is four characters but six bytes.
    let five_bytes = fuzzy_score("abcxy", "abc").unwrap();
    let six_bytes = fuzzy_score("€abc", "abc").unwrap();
    assert!(five_bytes > six_bytes);
}
