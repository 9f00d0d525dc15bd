//! Tests for PDF escape decoding and content-stream text recovery.

use redactor::PdfEscapes;
use redactor::PdfPatterns;
use redactor::extract_text_from_page_content;
use redactor::redact_phone_numbers;

#[test]
fn test_unescape_space() {
    assert_eq!(PdfEscapes::unescape("Hello\\040World"), "Hello World");
}

#[test]
fn test_unescape_left_parenthesis() {
    assert_eq!(PdfEscapes::unescape("\\050555\\051"), "(555)");
}

#[test]
fn test_unescape_right_parenthesis() {
    assert_eq!(PdfEscapes::unescape("Call\\051Now"), "Call)Now");
}

#[test]
fn test_unescape_newline() {
    assert_eq!(PdfEscapes::unescape("Line1\\nLine2"), "Line1\nLine2");
}

#[test]
fn test_unescape_carriage_return() {
    assert_eq!(PdfEscapes::unescape("Text\\rMore"), "Text\rMore");
}

#[test]
fn test_unescape_tab() {
    assert_eq!(PdfEscapes::unescape("Col1\\tCol2"), "Col1\tCol2");
}

#[test]
fn test_unescape_backslash() {
    assert_eq!(PdfEscapes::unescape("Path\\\\File"), "Path\\File");
}

#[test]
fn test_unescape_multiple_sequences() {
    let input = "\\050555\\051\\040123-4567\\n";
    let expected = "(555) 123-4567\n";
    assert_eq!(PdfEscapes::unescape(input), expected);
}

#[test]
fn test_unescape_empty_string() {
    assert_eq!(PdfEscapes::unescape(""), "");
}

#[test]
fn test_unescape_no_escapes() {
    let text = "Regular text with no escapes";
    assert_eq!(PdfEscapes::unescape(text), text);
}

#[test]
fn test_unescape_consecutive_escapes() {
    assert_eq!(PdfEscapes::unescape("\\n\\n\\n"), "\n\n\n");
}

#[test]
fn test_unescape_mixed_with_regular_text() {
    let input = "Phone:\\040\\050555\\051\\040123-4567";
    let expected = "Phone: (555) 123-4567";
    assert_eq!(PdfEscapes::unescape(input), expected);
}

#[test]
fn test_unescape_preserves_non_escape_backslashes() {
    // Backslash not followed by a known escape sequence
    let input = "Test\\xYZ";
    // Should only replace known escape sequences
    assert_eq!(PdfEscapes::unescape(input), "Test\\xYZ");
}

#[test]
fn test_unescape_unicode_preservation() {
    let input = "Hello\\040世界\\n日本語";
    let expected = "Hello 世界\n日本語";
    assert_eq!(PdfEscapes::unescape(input), expected);
}

#[test]
fn test_unescape_very_long_string() {
    let mut input = String::new();
    let mut expected = String::new();

    for _ in 0..1000 {
        input.push_str("Text\\040");
        expected.push_str("Text ");
    }

    assert_eq!(PdfEscapes::unescape(&input), expected);
}

#[test]
fn test_unescape_all_escape_types_together() {
    let input = "\\050\\051\\040\\n\\r\\t\\\\";
    let expected = "() \n\r\t\\";
    assert_eq!(PdfEscapes::unescape(input), expected);
}

/// Property-based test: unescaping should never panic
#[test]
fn test_unescape_never_panics() {
    let large_a = "a".repeat(10000);
    let test_strings: Vec<&str> = vec![
        "",
        "\\",
        "\\\\",
        "\\040",
        "\\x",
        "\\0",
        "\\999",
        "\\040\\050\\051",
        &large_a,
    ];

    for s in test_strings {
        let _ = PdfEscapes::unescape(s);
        // Success if no panic
    }
}

#[test]
fn test_unescape_with_max_performance() {
    let input = "Text\\040".repeat(10000);
    let start = std::time::Instant::now();
    let result = PdfEscapes::unescape(&input);
    let duration = start.elapsed();

    assert!(
        duration.as_millis() < 1000,
        "Should complete in under 1 second"
    );
    assert!(result.contains("Text "));
}

#[test]
fn test_text_string_pattern_basic() {
    let text = "(Hello World)";
    let caps = PdfPatterns::text_strings(text);
    assert!(!caps.is_empty());
    assert_eq!(caps[0], "Hello World");
}

#[test]
fn test_text_string_pattern_with_phone() {
    let text = "((555) 123-4567)";
    assert!(!PdfPatterns::text_strings(text).is_empty());
}

#[test]
fn test_text_string_pattern_empty_parens() {
    let text = "()";
    let caps = PdfPatterns::text_strings(text);
    assert!(!caps.is_empty());
    assert_eq!(caps[0], "");
}

#[test]
fn test_text_string_pattern_multiple_matches() {
    let text = "(First) and (Second) and (Third)";
    let matches = PdfPatterns::text_strings(text);
    assert_eq!(matches.len(), 3);
}

#[test]
fn test_text_string_pattern_no_match() {
    let text = "No parentheses here";
    assert!(PdfPatterns::text_strings(text).is_empty());
}

#[test]
fn test_text_string_pattern_nested_parens_limitation() {
    // The pattern doesn't handle nested parentheses
    let text = "(outer (inner))";
    // Will match up to first closing parenthesis
    assert!(!PdfPatterns::text_strings(text).is_empty());
}

#[test]
fn test_tj_array_pattern_basic() {
    let text = "[(Hello)] TJ";
    let caps = PdfPatterns::tj_arrays(text);
    assert!(!caps.is_empty());
    assert_eq!(caps[0], "(Hello)");
}

#[test]
fn test_tj_array_pattern_multiple_strings() {
    let text = "[(Hello)(World)(123)] TJ";
    let caps = PdfPatterns::tj_arrays(text);
    assert!(!caps.is_empty());
    assert_eq!(caps[0], "(Hello)(World)(123)");
}

#[test]
fn test_tj_array_pattern_with_numbers() {
    let text = "[(Text)-250(More)-100(Text)] TJ";
    assert!(!PdfPatterns::tj_arrays(text).is_empty());
}

#[test]
fn test_tj_array_pattern_with_whitespace() {
    let text = "[  (Hello)  (World)  ]  TJ";
    assert!(!PdfPatterns::tj_arrays(text).is_empty());
}

#[test]
fn test_tj_array_pattern_empty_array() {
    let text = "[] TJ";
    let caps = PdfPatterns::tj_arrays(text);
    assert!(!caps.is_empty());
    assert_eq!(caps[0], "");
}

#[test]
fn test_tj_array_pattern_no_match_without_tj() {
    let text = "[(Hello)(World)]";
    assert!(PdfPatterns::tj_arrays(text).is_empty());
}

#[test]
fn test_tj_array_pattern_case_sensitive() {
    let text_lower = "[(Hello)] tj";
    let text_upper = "[(Hello)] TJ";

    assert!(PdfPatterns::tj_arrays(text_lower).is_empty());
    assert!(!PdfPatterns::tj_arrays(text_upper).is_empty());
}

#[test]
fn test_tj_array_pattern_in_pdf_stream() {
    let pdf_content = r#"
            BT
            /F1 12 Tf
            100 700 Td
            [(Account:)-250(123456789)] TJ
            ET
        "#;

    assert!(!PdfPatterns::tj_arrays(pdf_content).is_empty());
}

#[test]
fn test_tj_array_pattern_multiple_in_stream() {
    let pdf_content = "[(Line1)] TJ [(Line2)] TJ [(Line3)] TJ";
    let matches = PdfPatterns::tj_arrays(pdf_content);
    assert_eq!(matches.len(), 3);
}

#[test]
fn test_tj_array_with_real_pdf_content() {
    // Realistic PDF content with phone number
    let content = r#"
            [(Phone:)-200(\050555\051)-100(123-4567)] TJ
        "#;

    let caps = PdfPatterns::tj_arrays(content);
    assert!(!caps.is_empty());
    let text_array = &caps[0];

    // Verify we can extract the content
    assert!(text_array.contains("Phone"));
    assert!(text_array.contains("555"));
}

#[test]
fn test_patterns_work_together() {
    let pdf_stream = "Before (Simple Text) After [(Array Text)] TJ End";

    let text_matches = PdfPatterns::text_strings(pdf_stream);
    let tj_matches = PdfPatterns::tj_arrays(pdf_stream);

    // The string pattern sees (Simple Text) and (Array Text) - 2 total
    assert_eq!(text_matches.len(), 2);
    assert_eq!(tj_matches.len(), 1);
}

#[test]
fn test_pattern_matching_performance() {
    let large_text = "(text)".repeat(1000);

    let start = std::time::Instant::now();
    let matches = PdfPatterns::text_strings(&large_text);
    let duration = start.elapsed();

    assert_eq!(matches.len(), 1000);
    assert!(duration.as_millis() < 100, "Should complete in under 100ms");
}

#[test]
fn test_empty_input_edge_cases() {
    assert_eq!(PdfEscapes::unescape(""), "");
    assert!(PdfPatterns::text_strings("").is_empty());
    assert!(PdfPatterns::tj_arrays("").is_empty());
}

#[test]
fn test_special_characters_in_patterns() {
    // PDF strings can contain various special characters
    let test_cases = vec![
        "(test@example.com)",
        "(Price: $19.99)",
        "(100% complete)",
        "(Version 2.0.1)",
        "(file-name_123.pdf)",
    ];

    for case in test_cases {
        assert!(
            !PdfPatterns::text_strings(case).is_empty(),
            "Failed for: {}",
            case
        );
    }
}

/// Text recovery joins every string object, unescaped, with a space
/// after each, and then the string objects inside every text array.
#[test]
fn test_extract_text_from_page_content_basic() {
    let content = "(Hello\\040World) [(Second)] TJ";
    let text = extract_text_from_page_content(content);
    assert_eq!(text, "Hello World Second Second ");
}

/// A string object holding a phone number has the match replaced by
/// twelve block characters; other string objects and the surrounding
/// stream text stay verbatim.
#[test]
fn test_redact_phone_numbers_masks_matching_groups() {
    let content = "(5552345678) (hello)";
    assert_eq!(
        redact_phone_numbers(content),
        "(\u{2588}\u{2588}\u{2588}\u{2588}\u{2588}\u{2588}\u{2588}\u{2588}\u{2588}\u{2588}\u{2588}\u{2588}) (hello)"
    );
}

/// The match inside a string object may begin at the whitespace before
/// the number, which the mask then covers as well.
#[test]
fn test_redact_phone_numbers_in_stream_context() {
    let content = "BT (Call 555-234-5678) ET";
    assert_eq!(
        redact_phone_numbers(content),
        "BT (Call\u{2588}\u{2588}\u{2588}\u{2588}\u{2588}\u{2588}\u{2588}\u{2588}\u{2588}\u{2588}\u{2588}\u{2588}) ET"
    );
}

/// A stream with no phone numbers comes back unchanged.
#[test]
fn test_redact_phone_numbers_no_phones() {
    assert_eq!(redact_phone_numbers("(hello) world"), "(hello) world");
    assert_eq!(redact_phone_numbers(""), "");
}
