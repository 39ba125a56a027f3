use emotechat_backend::classify;
use emotechat_backend::namespace_of;
use emotechat_backend::validate_id;
use emotechat_backend::validate_legacy_id;
use emotechat_backend::IdClass;

const SEP: char = '\u{00B7}';

#[test]
fn legacy_lowercase_run_then_uppercase() {
    assert_eq!(classify("monkaW"), IdClass::Legacy);
}

#[test]
fn uppercase_before_any_lowercase_is_invalid() {
    assert_eq!(classify("MonkaW"), IdClass::Invalid);
}

#[test]
fn no_separator_and_no_case_transition_is_invalid() {
    assert_eq!(classify("abc_def"), IdClass::Invalid);
}

#[test]
fn separator_with_alphanumeric_suffix_is_current() {
    assert_eq!(classify(&format!("emotechat{}a", SEP)), IdClass::Current);
}

#[test]
fn non_alphanumeric_suffix_character_is_invalid() {
    assert_eq!(classify(&format!("emotechat{}a!", SEP)), IdClass::Invalid);
}

#[test]
fn empty_suffix_is_not_current() {
    assert_eq!(classify(&format!("emotechat{}", SEP)), IdClass::Invalid);
}

#[test]
fn second_separator_in_suffix_is_invalid() {
    assert_eq!(classify(&format!("a{}b{}c", SEP, SEP)), IdClass::Invalid);
}

#[test]
fn empty_string_is_invalid() {
    assert_eq!(classify(""), IdClass::Invalid);
}

#[test]
fn legacy_allows_non_alphabetic_after_split() {
    assert_eq!(classify("monkaW2"), IdClass::Legacy);
}

#[test]
fn legacy_allows_non_alphabetic_before_split() {
    assert_eq!(classify("mon_kaW"), IdClass::Legacy);
}

#[test]
fn lowercase_after_split_is_invalid() {
    assert_eq!(classify("monkaWa"), IdClass::Invalid);
}

#[test]
fn all_lowercase_is_invalid() {
    assert_eq!(classify("monka"), IdClass::Invalid);
}

#[test]
fn validate_id_accepts_alphanumeric() {
    assert!(validate_id("abcXYZ019"));
}

#[test]
fn validate_id_accepts_empty() {
    assert!(validate_id(""));
}

#[test]
fn validate_id_rejects_punctuation() {
    assert!(!validate_id("a!"));
    assert!(!validate_id(&format!("a{}b", SEP)));
}

#[test]
fn validate_legacy_id_cases() {
    assert!(validate_legacy_id("monkaW"));
    assert!(validate_legacy_id("monkaW2"));
    assert!(validate_legacy_id("mon_kaW"));
    assert!(validate_legacy_id("monkaWXY"));
    assert!(!validate_legacy_id("MonkaW"));
    assert!(!validate_legacy_id("abc_def"));
    assert!(!validate_legacy_id("monkaWa"));
    assert!(!validate_legacy_id(""));
    assert!(!validate_legacy_id("W"));
}

#[test]
fn namespace_of_recovers_prefix() {
    let id = format!("monka{}b", SEP);
    assert_eq!(namespace_of(&id), Some("monka".to_string()));
    assert_eq!(namespace_of("monkaW"), None);
}
