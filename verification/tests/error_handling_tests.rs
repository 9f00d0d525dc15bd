//! Tests for the failure kinds, their rendered messages, and error
//! propagation through results.

use redactor::RedactorError;
use redactor::RedactorResult;

#[test]
fn test_error_display() {
    let err = RedactorError::PatternNotFound {
        pattern: "test".to_string(),
        context: "document".to_string(),
    };
    assert_eq!(err.message(), "Pattern 'test' not found: document");
}

#[test]
fn test_io_error_display() {
    let err = RedactorError::Io {
        path: "/test/path.pdf".to_string(),
        message: "file not found".to_string(),
    };

    let display = err.message();
    assert!(display.contains("/test/path.pdf"));
    assert!(display.contains("IO error"));
    assert!(display.contains("file not found"));
}

#[test]
fn test_pdf_processing_error_display_with_page() {
    let err = RedactorError::PdfProcessing {
        message: "Invalid annotation".to_string(),
        page: Some(5),
    };

    let display = err.message();
    assert!(display.contains("page 5"));
    assert!(display.contains("Invalid annotation"));
}

#[test]
fn test_pdf_processing_error_display_without_page() {
    let err = RedactorError::PdfProcessing {
        message: "Document corrupted".to_string(),
        page: None,
    };

    let display = err.message();
    assert!(!display.contains("page"));
    assert!(display.contains("Document corrupted"));
}

#[test]
fn test_pattern_error_display() {
    let err = RedactorError::PatternError {
        pattern: "[invalid(".to_string(),
        reason: "unclosed bracket".to_string(),
    };

    let display = err.message();
    assert!(display.contains("[invalid("));
    assert!(display.contains("unclosed bracket"));
    assert!(display.contains("Pattern error"));
}

#[test]
fn test_text_extraction_error_display() {
    let err = RedactorError::TextExtraction {
        path: "/docs/encrypted.pdf".to_string(),
        reason: "Password protected".to_string(),
    };

    let display = err.message();
    assert!(display.contains("encrypted.pdf"));
    assert!(display.contains("Password protected"));
    assert!(display.contains("Text extraction failed"));
}

#[test]
fn test_pattern_not_found_error_display() {
    let err = RedactorError::PatternNotFound {
        pattern: "SSN".to_string(),
        context: "document text".to_string(),
    };

    let display = err.message();
    assert_eq!(display, "Pattern 'SSN' not found: document text");
}

#[test]
fn test_invalid_input_error_display() {
    let err = RedactorError::InvalidInput {
        parameter: "output".to_string(),
        reason: "Path contains invalid UTF-8".to_string(),
    };

    let display = err.message();
    assert!(display.contains("output"));
    assert!(display.contains("invalid UTF-8"));
    assert!(display.contains("Invalid input"));
}

#[test]
fn test_backend_error_display() {
    let err = RedactorError::BackendError {
        backend: "MuPDF".to_string(),
        message: "Failed to initialize".to_string(),
    };

    let display = err.message();
    assert!(display.contains("MuPDF"));
    assert!(display.contains("Failed to initialize"));
}

#[test]
fn test_redactor_result_ok() {
    let result: RedactorResult<i32> = Ok(42);
    assert_eq!(result.ok(), Some(42));
}

#[test]
fn test_redactor_result_err() {
    let result: RedactorResult<i32> = Err(RedactorError::InvalidInput {
        parameter: "test".to_string(),
        reason: "invalid".to_string(),
    });

    assert!(result.is_err());
}

#[test]
fn test_error_matching_in_handler() {
    fn handle_error(err: RedactorError) -> String {
        match err {
            RedactorError::Io { path, .. } => format!("File error: {}", path),
            RedactorError::PatternNotFound { pattern, .. } => {
                format!("Pattern '{}' not found", pattern)
            }
            _ => "Unknown error".to_string(),
        }
    }

    let io_err = RedactorError::Io {
        path: "/test.pdf".to_string(),
        message: "not found".to_string(),
    };
    assert_eq!(handle_error(io_err), "File error: /test.pdf");

    let pattern_err = RedactorError::PatternNotFound {
        pattern: "account".to_string(),
        context: "bill".to_string(),
    };
    assert_eq!(handle_error(pattern_err), "Pattern 'account' not found");
}

#[test]
fn test_error_debug_format() {
    let err = RedactorError::InvalidInput {
        parameter: "pattern".to_string(),
        reason: "empty string".to_string(),
    };

    let debug_str = format!("{:?}", err);
    assert!(debug_str.contains("InvalidInput"));
    assert!(debug_str.contains("pattern"));
    assert!(debug_str.contains("empty string"));
}

#[test]
fn test_error_with_empty_strings() {
    let err = RedactorError::PatternError {
        pattern: String::new(),
        reason: String::new(),
    };

    let display = err.message();
    assert!(display.contains("Pattern error"));
}

#[test]
fn test_error_with_special_characters() {
    let err = RedactorError::PatternNotFound {
        pattern: "test\n\t\r".to_string(),
        context: "file with \"quotes\" and 'apostrophes'".to_string(),
    };

    let display = err.message();
    assert!(display.contains("test"));
    assert!(display.contains("quotes"));
}

#[test]
fn test_error_with_unicode() {
    let err = RedactorError::TextExtraction {
        path: "/files/文档.pdf".to_string(),
        reason: "Encoding error: 日本語".to_string(),
    };

    let display = err.message();
    assert!(display.contains("文档.pdf"));
    assert!(display.contains("日本語"));
}

#[test]
fn test_error_propagation_with_question_mark() {
    fn inner() -> RedactorResult<i32> {
        Err(RedactorError::InvalidInput {
            parameter: "inner".to_string(),
            reason: "test".to_string(),
        })
    }

    fn outer() -> RedactorResult<i32> {
        let _value = inner()?;
        Ok(42)
    }

    let result = outer();
    assert!(result.is_err());

    match result.unwrap_err() {
        RedactorError::InvalidInput { parameter, .. } => {
            assert_eq!(parameter, "inner");
        }
        _ => panic!("Expected InvalidInput"),
    }
}

#[test]
fn test_multiple_error_variants_in_vec() {
    let errors: Vec<RedactorError> = vec![
        RedactorError::PatternNotFound {
            pattern: "test1".to_string(),
            context: "doc1".to_string(),
        },
        RedactorError::InvalidInput {
            parameter: "param1".to_string(),
            reason: "reason1".to_string(),
        },
        RedactorError::PatternError {
            pattern: "test2".to_string(),
            reason: "reason2".to_string(),
        },
    ];

    assert_eq!(errors.len(), 3);

    for err in errors {
        assert!(!err.message().is_empty());
    }
}

#[test]
fn test_io_error_variants() {
    let path = "/test/path.pdf";
    let test_cases = vec!["not found", "permission denied", "already exists"];

    for msg in test_cases {
        let error = RedactorError::Io {
            path: path.to_string(),
            message: msg.to_string(),
        };
        assert!(error.message().contains(msg));
    }
}

#[test]
fn test_file_not_found_scenario() {
    let error = RedactorError::Io {
        path: "/nonexistent/file.pdf".to_string(),
        message: "No such file or directory".to_string(),
    };
    assert!(error.message().contains("nonexistent"));
    assert!(error.message().contains("No such file"));
}

#[test]
fn test_invalid_regex_pattern_scenario() {
    let error = RedactorError::InvalidInput {
        parameter: "regex_pattern".to_string(),
        reason: "Invalid regex pattern: regex parse error".to_string(),
    };
    assert!(error.message().contains("Invalid regex pattern"));
}

#[test]
fn test_account_not_found_scenario() {
    let error = RedactorError::PatternNotFound {
        pattern: "Verizon account number".to_string(),
        context: "document text".to_string(),
    };
    assert!(error.message().contains("not found"));
}

#[test]
fn test_permission_denied_scenario() {
    let error = RedactorError::Io {
        path: "/protected/output.pdf".to_string(),
        message: "Permission denied".to_string(),
    };
    assert!(error.message().contains("Permission denied"));
    assert!(error.message().contains("/protected/output.pdf"));
}

#[test]
fn test_all_errors_have_nonempty_display() {
    let errors = vec![
        RedactorError::Io {
            path: "/test".to_string(),
            message: "test".to_string(),
        },
        RedactorError::PdfProcessing {
            message: "test".to_string(),
            page: Some(1),
        },
        RedactorError::PatternError {
            pattern: "test".to_string(),
            reason: "test".to_string(),
        },
        RedactorError::TextExtraction {
            path: "/test".to_string(),
            reason: "test".to_string(),
        },
        RedactorError::PatternNotFound {
            pattern: "test".to_string(),
            context: "test".to_string(),
        },
        RedactorError::InvalidInput {
            parameter: "test".to_string(),
            reason: "test".to_string(),
        },
        RedactorError::BackendError {
            backend: "test".to_string(),
            message: "test".to_string(),
        },
    ];

    for error in errors {
        let display = error.message();
        assert!(!display.is_empty());
        assert!(display.len() > 10);
    }
}

/// The page-bearing message renders the page count in decimal.
#[test]
fn test_page_number_rendering() {
    let err = RedactorError::PdfProcessing {
        message: "stream ended".to_string(),
        page: Some(120),
    };
    assert_eq!(
        err.message(),
        "PDF processing error on page 120: stream ended"
    );
    let err0 = RedactorError::PdfProcessing {
        message: "bad header".to_string(),
        page: Some(0),
    };
    assert_eq!(err0.message(), "PDF processing error on page 0: bad header");
}
