//! The closed set of failure kinds used across the library, with a
//! verified rendering of each kind into its user-facing message.

use vstd::prelude::*;

verus! {

/// Result alias for redaction operations.
pub type RedactorResult<T> = Result<T, RedactorError>;

/// The failure kinds of the library, categorized by source.
#[derive(Debug)]
pub enum RedactorError {
    /// A file could not be read or written.
    Io { path: String, message: String },
    /// The document engine failed, optionally on a specific page.
    PdfProcessing { message: String, page: Option<usize> },
    /// A supplied search pattern could not be used.
    PatternError { pattern: String, reason: String },
    /// Text could not be obtained from a document.
    TextExtraction { path: String, reason: String },
    /// A required pattern was not present in the document.
    PatternNotFound { pattern: String, context: String },
    /// A caller-supplied parameter violates a precondition.
    InvalidInput { parameter: String, reason: String },
    /// An opaque failure surfaced from a third-party component.
    BackendError { backend: String, message: String },
}

/// The decimal digits of `n`, most significant first.
pub open spec fn dec_str(n: nat) -> Seq<char>
    decreases n,
{
    if n < 10 {
        seq![digit_char_of(n)]
    } else {
        dec_str(n / 10) + seq![digit_char_of(n % 10)]
    }
}

/// The character for a single decimal digit.
pub open spec fn digit_char_of(d: nat) -> char {
    if d == 0 {
        '0'
    } else if d == 1 {
        '1'
    } else if d == 2 {
        '2'
    } else if d == 3 {
        '3'
    } else if d == 4 {
        '4'
    } else if d == 5 {
        '5'
    } else if d == 6 {
        '6'
    } else if d == 7 {
        '7'
    } else if d == 8 {
        '8'
    } else {
        '9'
    }
}

/// The message rendered for each failure kind.
pub open spec fn message_spec(e: &RedactorError) -> Seq<char> {
    match e {
        RedactorError::Io { path, message } => "IO error for path '"@ + path@ + "': "@ + message@,
        RedactorError::PdfProcessing { message, page } => match page {
            Some(p) => "PDF processing error on page "@ + dec_str(*p as nat) + ": "@ + message@,
            None => "PDF processing error: "@ + message@,
        },
        RedactorError::PatternError { pattern, reason } => "Pattern error for '"@ + pattern@
            + "': "@ + reason@,
        RedactorError::TextExtraction { path, reason } => "Text extraction failed for '"@ + path@
            + "': "@ + reason@,
        RedactorError::PatternNotFound { pattern, context } => "Pattern '"@ + pattern@
            + "' not found: "@ + context@,
        RedactorError::InvalidInput { parameter, reason } => "Invalid input for '"@ + parameter@
            + "': "@ + reason@,
        RedactorError::BackendError { backend, message } => backend@ + " backend error: "@
            + message@,
    }
}

/// Exec digit rendering for [`digit_char_of`].
fn digit_char_exec(d: usize) -> (c: char)
    requires
        d < 10,
    ensures
        c == digit_char_of(d as nat),
{
    if d == 0 {
        '0'
    } else if d == 1 {
        '1'
    } else if d == 2 {
        '2'
    } else if d == 3 {
        '3'
    } else if d == 4 {
        '4'
    } else if d == 5 {
        '5'
    } else if d == 6 {
        '6'
    } else if d == 7 {
        '7'
    } else if d == 8 {
        '8'
    } else {
        '9'
    }
}

/// Exec computation of [`dec_str`].
fn dec_chars(n: usize) -> (r: Vec<char>)
    ensures
        r@ == dec_str(n as nat),
    decreases n,
{
    if n < 10 {
        let mut r: Vec<char> = Vec::new();
        r.push(digit_char_exec(n));
        proof {
            assert(r@ =~= dec_str(n as nat));
        }
        r
    } else {
        let mut r = dec_chars(n / 10);
        r.push(digit_char_exec(n % 10));
        proof {
            assert(r@ =~= dec_str((n / 10) as nat) + seq![digit_char_of((n % 10) as nat)]);
        }
        r
    }
}

/// The decimal rendering of a count.
pub fn usize_to_string(n: usize) -> (r: String)
    ensures
        r@ == dec_str(n as nat),
{
    let v = dec_chars(n);
    crate::text::string_from(&v)
}

impl RedactorError {
    /// Renders the failure as its user-facing message.
    pub fn message(&self) -> (r: String)
        ensures
            r@ == message_spec(self),
    {
        match self {
            RedactorError::Io { path, message } => {
                let mut s = String::new();
                s.append("IO error for path '");
                s.append(path.as_str());
                s.append("': ");
                s.append(message.as_str());
                proof {
                    assert(s@ =~= message_spec(self));
                }
                s
            },
            RedactorError::PdfProcessing { message, page } => {
                match page {
                    Some(p) => {
                        let num = usize_to_string(*p);
                        let mut s = String::new();
                        s.append("PDF processing error on page ");
                        s.append(num.as_str());
                        s.append(": ");
                        s.append(message.as_str());
                        proof {
                            assert(s@ =~= message_spec(self));
                        }
                        s
                    },
                    None => {
                        let mut s = String::new();
                        s.append("PDF processing error: ");
                        s.append(message.as_str());
                        proof {
                            assert(s@ =~= message_spec(self));
                        }
                        s
                    },
                }
            },
            RedactorError::PatternError { pattern, reason } => {
                let mut s = String::new();
                s.append("Pattern error for '");
                s.append(pattern.as_str());
                s.append("': ");
                s.append(reason.as_str());
                proof {
                    assert(s@ =~= message_spec(self));
                }
                s
            },
            RedactorError::TextExtraction { path, reason } => {
                let mut s = String::new();
                s.append("Text extraction failed for '");
                s.append(path.as_str());
                s.append("': ");
                s.append(reason.as_str());
                proof {
                    assert(s@ =~= message_spec(self));
                }
                s
            },
            RedactorError::PatternNotFound { pattern, context } => {
                let mut s = String::new();
                s.append("Pattern '");
                s.append(pattern.as_str());
                s.append("' not found: ");
                s.append(context.as_str());
                proof {
                    assert(s@ =~= message_spec(self));
                }
                s
            },
            RedactorError::InvalidInput { parameter, reason } => {
                let mut s = String::new();
                s.append("Invalid input for '");
                s.append(parameter.as_str());
                s.append("': ");
                s.append(reason.as_str());
                proof {
                    assert(s@ =~= message_spec(self));
                }
                s
            },
            RedactorError::BackendError { backend, message } => {
                let mut s = String::new();
                s.append(backend.as_str());
                s.append(" backend error: ");
                s.append(message.as_str());
                proof {
                    assert(s@ =~= message_spec(self));
                }
                s
            },
        }
    }
}

} // verus!
