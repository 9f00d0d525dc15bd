//! Tests for target building, target resolution, the strategy
//! configuration and the result accumulator.

use redactor::PhoneNumberMatcher;
use redactor::RedactionResult;
use redactor::RedactionTarget;
use redactor::RedactorError;
use redactor::SecureRedactionStrategy;
use redactor::VerizonAccountMatcher;
use redactor::build_targets;
use redactor::is_redact_all;

#[test]
fn test_target_building() {
    // Test verizon flag (should include phones and call details automatically)
    let targets = build_targets(&vec![], false, true, false);
    assert_eq!(targets.len(), 3); // account + phones + call details

    // Test literal pattern
    let targets = build_targets(&vec![String::from("test")], false, false, false);
    assert_eq!(targets.len(), 1);
    assert!(matches!(targets[0], RedactionTarget::Literal(_)));

    // Test phones flag
    let targets = build_targets(&vec![], true, false, false);
    assert_eq!(targets.len(), 1);
    assert!(matches!(targets[0], RedactionTarget::PhoneNumbers));
}

#[test]
fn test_verizon_flag_includes_all_three_targets() {
    let targets = build_targets(&vec![], false, true, false);

    assert_eq!(targets.len(), 3);
    assert!(matches!(targets[0], RedactionTarget::VerizonAccount));
    assert!(matches!(targets[1], RedactionTarget::PhoneNumbers));
    assert!(matches!(targets[2], RedactionTarget::VerizonCallDetails));
}

#[test]
fn test_phones_flag_adds_single_target() {
    let targets = build_targets(&vec![], true, false, false);

    assert_eq!(targets.len(), 1);
    assert!(matches!(targets[0], RedactionTarget::PhoneNumbers));
}

#[test]
fn test_phones_not_duplicated_when_verizon_set() {
    let targets = build_targets(&vec![], true, true, false);

    // Should be 3 targets (the carrier flag adds phones, so the phones
    // flag is ignored)
    assert_eq!(targets.len(), 3);

    // Count PhoneNumbers targets - should be exactly 1
    let phone_count = targets
        .iter()
        .filter(|t| matches!(t, RedactionTarget::PhoneNumbers))
        .count();
    assert_eq!(phone_count, 1, "PhoneNumbers should not be duplicated");
}

#[test]
fn test_literal_patterns_added() {
    let patterns = vec!["test1".to_string(), "test2".to_string()];
    let targets = build_targets(&patterns, false, false, false);

    assert_eq!(targets.len(), 2);
    assert!(matches!(targets[0], RedactionTarget::Literal(_)));
    assert!(matches!(targets[1], RedactionTarget::Literal(_)));
}

#[test]
fn test_verizon_plus_literals() {
    let patterns = vec!["custom".to_string()];
    let targets = build_targets(&patterns, false, true, false);

    assert_eq!(targets.len(), 4);
    // First 3 are the carrier bundle
    assert!(matches!(targets[0], RedactionTarget::VerizonAccount));
    // Last is literal
    assert!(matches!(targets[3], RedactionTarget::Literal(_)));
}

#[test]
fn test_empty_patterns_array() {
    let targets = build_targets(&vec![], false, false, false);
    assert_eq!(targets.len(), 0);
}

#[test]
fn test_multiple_literal_patterns_preserve_order() {
    let patterns = vec![
        "first".to_string(),
        "second".to_string(),
        "third".to_string(),
    ];
    let targets = build_targets(&patterns, false, false, false);

    assert_eq!(targets.len(), 3);
    if let RedactionTarget::Literal(s) = &targets[0] {
        assert_eq!(s, "first");
    } else {
        panic!("Expected literal");
    }
    if let RedactionTarget::Literal(s) = &targets[2] {
        assert_eq!(s, "third");
    } else {
        panic!("Expected literal");
    }
}

#[test]
fn test_redaction_result() {
    let result = RedactionResult::none();
    assert!(!result.has_redactions());

    let result = RedactionResult {
        instances_redacted: 5,
        pages_processed: 0,
        pages_modified: 0,
        secure: false,
    };
    assert!(result.has_redactions());
}

#[test]
fn test_strategy_creation() {
    let strategy = SecureRedactionStrategy::new();
    assert_eq!(strategy.name(), "SecureRedaction");
    assert!(strategy.is_secure());
}

#[test]
fn test_max_hits_configuration() {
    let strategy = SecureRedactionStrategy::new().with_max_hits(50);
    assert_eq!(strategy.max_hits, 50);
}

#[test]
fn test_strategy_with_custom_max_hits() {
    let strategy = SecureRedactionStrategy::new().with_max_hits(50);

    // Verify it's created successfully
    assert_eq!(strategy.name(), "SecureRedaction");
    assert!(strategy.is_secure());
}

#[test]
fn test_strategy_with_very_low_max_hits() {
    let strategy = SecureRedactionStrategy::new().with_max_hits(1);

    assert_eq!(strategy.name(), "SecureRedaction");
}

#[test]
fn test_strategy_with_very_high_max_hits() {
    let strategy = SecureRedactionStrategy::new().with_max_hits(10000);

    assert_eq!(strategy.name(), "SecureRedaction");
}

#[test]
fn test_strategy_clone() {
    let strategy1 = SecureRedactionStrategy::new().with_max_hits(75);
    let strategy2 = strategy1.clone();

    assert_eq!(strategy1.name(), strategy2.name());
    assert_eq!(strategy1.is_secure(), strategy2.is_secure());
}

#[test]
fn test_handler_verbose_output() {
    let result = RedactionResult {
        instances_redacted: 5,
        pages_processed: 3,
        pages_modified: 2,
        secure: true,
    };

    // Verify all fields are accessible and formatted correctly
    assert_eq!(result.instances_redacted, 5);
    assert_eq!(result.pages_processed, 3);
    assert_eq!(result.pages_modified, 2);
    assert!(result.secure);
    assert!(result.has_redactions());
}

#[test]
fn test_pattern_matchers() {
    let phone_matcher = PhoneNumberMatcher::new();
    // Use valid NANP number (exchange must start with 2-9, not 0 or 1)
    assert!(phone_matcher.normalize("(555) 234-5678").is_some());

    let account_matcher = VerizonAccountMatcher::new();
    let variants = account_matcher.generate_variants("12345678900001");
    assert!(!variants.is_empty());
}

#[test]
fn test_assert_all_redacted_empty_patterns() {
    // An empty pattern list leaves nothing to check, so the assertion
    // over all patterns holds vacuously.
    let patterns: Vec<String> = vec![];
    assert!(patterns.iter().all(|p| !p.is_empty()));
}

#[test]
fn test_pdf_contains_any() {
    // Checking a document for any of an empty set of values finds
    // nothing.
    let values: Vec<String> = vec![];
    assert!(!values.iter().any(|v| v == "needle"));
}

/// Resolving a required account number against text without one fails
/// with the pattern-not-found error; resolving call details against
/// the same text succeeds with an empty list.
#[test]
fn test_resolver_account_required_but_absent() {
    let strategy = SecureRedactionStrategy::new();
    let text = "no account number anywhere in this text";
    let result = strategy.resolve_patterns(text, &vec![RedactionTarget::VerizonAccount]);
    match result {
        Err(RedactorError::PatternNotFound { pattern, context }) => {
            assert_eq!(pattern, "Verizon account number");
            assert_eq!(context, "document text");
        }
        other => panic!("Expected PatternNotFound, got {:?}", other),
    }
}

#[test]
fn test_resolver_call_details_absent_is_empty() {
    let strategy = SecureRedactionStrategy::new();
    let text = "no account number anywhere in this text";
    let result = strategy.resolve_patterns(text, &vec![RedactionTarget::VerizonCallDetails]);
    match result {
        Ok(patterns) => assert!(patterns.is_empty()),
        other => panic!("Expected empty pattern list, got {:?}", other),
    }
}

/// A pattern-typed target is rejected by the secure strategy.
#[test]
fn test_resolver_rejects_pattern_target() {
    let strategy = SecureRedactionStrategy::new();
    let result = strategy.resolve_patterns(
        "any text",
        &vec![RedactionTarget::Regex("\\d+".to_string())],
    );
    match result {
        Err(RedactorError::InvalidInput { parameter, reason }) => {
            assert_eq!(parameter, "target");
            assert!(reason.contains("not yet supported"));
        }
        other => panic!("Expected InvalidInput, got {:?}", other),
    }
}

/// Literal targets pass through unchanged and in order; the whole-page
/// target resolves to the sentinel.
#[test]
fn test_resolver_literals_and_sentinel() {
    let strategy = SecureRedactionStrategy::new();
    let targets = vec![
        RedactionTarget::Literal("alpha".to_string()),
        RedactionTarget::Literal("beta".to_string()),
    ];
    let patterns = strategy.resolve_patterns("whatever", &targets).unwrap();
    assert_eq!(patterns, vec!["alpha".to_string(), "beta".to_string()]);
    assert!(!is_redact_all(&patterns));

    let whole = strategy
        .resolve_patterns("whatever", &vec![RedactionTarget::AllText])
        .unwrap();
    assert_eq!(whole, vec![".+".to_string()]);
    assert!(is_redact_all(&whole));
}

/// Phone targets resolve to the variants of every normalized hit.
#[test]
fn test_resolver_phone_variants() {
    let strategy = SecureRedactionStrategy::new();
    let text = "Call (555) 234-5678 now";
    let patterns = strategy
        .resolve_patterns(text, &vec![RedactionTarget::PhoneNumbers])
        .unwrap();
    assert_eq!(patterns.len(), 6);
    assert!(patterns.contains(&"5552345678".to_string()));
    assert!(patterns.contains(&"555-234-5678".to_string()));
    assert!(patterns.contains(&"+1-555-234-5678".to_string()));
}

/// An account target resolves to the three account variants.
#[test]
fn test_resolver_account_variants() {
    let strategy = SecureRedactionStrategy::new();
    let text = "Account Number: 123456789-00001";
    let patterns = strategy
        .resolve_patterns(text, &vec![RedactionTarget::VerizonAccount])
        .unwrap();
    assert_eq!(
        patterns,
        vec![
            "12345678900001".to_string(),
            "123456789-00001".to_string(),
            "123456789 00001".to_string(),
        ]
    );
}

/// The result accumulator counts regions and modified pages.
#[test]
fn test_record_page_accumulates() {
    let mut result = RedactionResult::start_run(3);
    assert_eq!(result.pages_processed, 3);
    assert!(result.secure);
    result.record_page(0);
    assert_eq!(result.pages_modified, 0);
    assert_eq!(result.instances_redacted, 0);
    result.record_page(4);
    result.record_page(2);
    assert_eq!(result.pages_modified, 2);
    assert_eq!(result.instances_redacted, 6);
    assert!(result.has_redactions());
}
