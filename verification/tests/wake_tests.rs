use virgil::wake::detect_wake_words;
use virgil::wake::find_word;

#[test]
fn detects_wake_word_with_offsets() {
    let words = vec!["Wake".to_string(), "Test".to_string()];
    let d = detect_wake_words("hello wake word test", &words);
    assert!(d.detected);
    assert_eq!(d.start_idx, Some(6));
    assert_eq!(d.end_idx, Some(10));
}

#[test]
fn list_order_beats_position_in_transcript() {
    // "test" appears earlier in the transcript, but "Wake" comes first in
    // the list, so its (later) occurrence wins.
    let words = vec!["Wake".to_string(), "Test".to_string()];
    let d = detect_wake_words("test then wake", &words);
    assert!(d.detected);
    assert_eq!(d.start_idx, Some(10));
    assert_eq!(d.end_idx, Some(14));
}

#[test]
fn matching_folds_ascii_case_both_ways() {
    let words = vec!["HELLO".to_string()];
    let d = detect_wake_words("well, Hello there", &words);
    assert!(d.detected);
    assert_eq!(d.start_idx, Some(6));
    assert_eq!(d.end_idx, Some(11));
}

#[test]
fn no_match_reports_nothing() {
    let words = vec!["Wake".to_string()];
    let d = detect_wake_words("nothing to hear", &words);
    assert!(!d.detected);
    assert_eq!(d.start_idx, None);
    assert_eq!(d.end_idx, None);
}

#[test]
fn empty_word_list_detects_nothing() {
    let d = detect_wake_words("anything at all", &Vec::new());
    assert!(!d.detected);
}

#[test]
fn earliest_occurrence_is_reported() {
    assert_eq!(find_word("abcABCabc", "bc"), Some(1));
    assert_eq!(find_word("abcABCabc", "CA"), Some(2));
    assert_eq!(find_word("abc", "abcd"), None);
    assert_eq!(find_word("", "a"), None);
    assert_eq!(find_word("a", ""), Some(0));
}
