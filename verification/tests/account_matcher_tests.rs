//! Tests for account number detection, priority handling and variant
//! generation.

use redactor::VerizonAccountMatcher;
use redactor::find_verizon_account_number;
use redactor::generate_account_patterns;

#[test]
fn test_verizon_account_extraction() {
    let text = "Account Number: 123456789-00001";
    let account = VerizonAccountMatcher::find_account_number(text);
    assert_eq!(account, Some("12345678900001".to_string()));
}

#[test]
fn test_account_priority() {
    // Should prefer account with context over standalone
    let text = "Random: 999999999-99999 Account: 123456789-00001";
    let account = VerizonAccountMatcher::find_account_number(text);
    assert_eq!(account, Some("12345678900001".to_string()));
}

#[test]
fn test_account_variants() {
    let matcher = VerizonAccountMatcher::new();
    let variants = matcher.generate_variants("12345678900001");
    assert!(variants.contains(&"12345678900001".to_string()));
    assert!(variants.contains(&"123456789-00001".to_string()));
    assert!(variants.contains(&"123456789 00001".to_string()));
    assert_eq!(variants.len(), 3);
}

#[test]
fn account_test_no_account_found() {
    let text = "This document has no account number";
    let account = VerizonAccountMatcher::find_account_number(text);
    assert_eq!(account, None);
}

#[test]
fn test_verizon_account_detection() {
    let text = "Account Number: 123456789-00001";
    let account = VerizonAccountMatcher::find_account_number(text);

    assert_eq!(account, Some("12345678900001".to_string()));
}

#[test]
fn test_verizon_account_priority() {
    // Should prefer account with context over standalone
    let text = "Random: 999999999-99999 Account: 123456789-00001";
    let account = VerizonAccountMatcher::find_account_number(text);

    assert_eq!(account, Some("12345678900001".to_string()));
}

#[test]
fn test_verizon_account_variants() {
    let matcher = VerizonAccountMatcher::new();
    let variants = matcher.generate_variants("12345678900001");

    assert!(variants.contains(&"12345678900001".to_string()));
    assert!(variants.contains(&"123456789-00001".to_string()));
    assert!(variants.contains(&"123456789 00001".to_string()));
    assert_eq!(variants.len(), 3);
}

#[test]
fn domain_tests_test_no_account_found() {
    let text = "This document has no account number";
    let account = VerizonAccountMatcher::find_account_number(text);

    assert_eq!(account, None);
}

#[test]
fn test_account_variants_12_digit_format() {
    let matcher = VerizonAccountMatcher::new();
    let account_12_digit = "123456789012";

    let variants = matcher.generate_variants(account_12_digit);

    // Should generate variants for 12-digit format
    assert!(!variants.is_empty());
    assert!(variants.contains(&account_12_digit.to_string()));

    // Should generate formatted variants
    assert!(variants.iter().any(|v| v.contains('-')));
}

#[test]
fn test_find_account_generic_pattern() {
    // Account with generic format (not 9-5 or 14 digits)
    let text = "Account Number: 1234-5678-9012";
    let result = VerizonAccountMatcher::find_account_number(text);

    // Should find using generic pattern
    assert!(result.is_some());
}

#[test]
fn test_account_with_spaces() {
    let text = "Account: 123 456 789 00 001";
    let result = VerizonAccountMatcher::find_account_number(text);

    // Generic pattern should handle spaces
    assert!(result.is_some());
}

#[test]
fn test_find_verizon_account_number_formats() {
    // Test 9-5 format
    let text1 = "Your account 123456789-00001 is active.";
    let result1 = find_verizon_account_number(text1);
    assert_eq!(result1, Some("12345678900001".to_string()));

    // Test 14-digit format
    let text2 = "Account: 12345678900001";
    let result2 = find_verizon_account_number(text2);
    assert_eq!(result2, Some("12345678900001".to_string()));

    // Test near keyword
    let text3 = "Account Number: 123456789-12345";
    let result3 = find_verizon_account_number(text3);
    assert_eq!(result3, Some("12345678912345".to_string()));

    // Test no account number
    let text4 = "This is just regular text with no account.";
    let result4 = find_verizon_account_number(text4);
    assert!(result4.is_none());
}

#[test]
fn test_generate_account_patterns() {
    // Test 14-digit account
    let patterns = generate_account_patterns("12345678900001");
    assert!(patterns.contains(&"12345678900001".to_string()));
    assert!(patterns.contains(&"123456789-00001".to_string()));
    assert!(patterns.contains(&"123456789 00001".to_string()));

    // Test 12-digit account
    let patterns12 = generate_account_patterns("123456789012");
    assert!(patterns12.contains(&"123456789012".to_string()));
    assert!(patterns12.contains(&"1234-5678-9012".to_string()));
}

/// Exact variant lists for the twelve-character and generic splits.
#[test]
fn test_account_variant_lists_exact() {
    let matcher = VerizonAccountMatcher::new();
    assert_eq!(
        matcher.generate_variants("123456789012"),
        vec![
            "123456789012".to_string(),
            "1234-5678-9012".to_string(),
            "123456-789012".to_string(),
        ]
    );
    assert_eq!(
        matcher.generate_variants("1234567890"),
        vec![
            "1234567890".to_string(),
            "12345-67890".to_string(),
            "12345 67890".to_string(),
        ]
    );
    assert_eq!(
        matcher.generate_variants("123"),
        vec!["123".to_string()]
    );
}

/// The raw 9+5 occurrences are extracted hyphen included, left to
/// right.
#[test]
fn test_account_extract_all_raw() {
    let matcher = VerizonAccountMatcher::new();
    let text = "a 123456789-00001 b 987654321-00002";
    let raw = matcher.extract_all(text);
    assert_eq!(
        raw,
        vec!["123456789-00001".to_string(), "987654321-00002".to_string()]
    );
}

/// Keyword-adjacent context wins over a context-free occurrence: the
/// decoy value without a keyword is passed over.
#[test]
fn test_keyword_context_beats_decoy() {
    let text = "Account Number: 123456789-00001 and later 999999999-99999";
    let result = VerizonAccountMatcher::find_account_number(text);
    assert_eq!(result, Some("12345678900001".to_string()));
}

/// A fourteen-digit candidate wins even when a shorter candidate was
/// collected before it.
#[test]
fn test_prefers_fourteen_digits_over_earlier_candidate() {
    let text = "Account no 1234 5678 90 Account no 123 456 789 00 001";
    let result = VerizonAccountMatcher::find_account_number(text);
    assert_eq!(result, Some("12345678900001".to_string()));
}
