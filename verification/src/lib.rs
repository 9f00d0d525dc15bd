//! Verified pattern matching and target resolution for secure document
//! redaction.
//!
//! The library detects sensitive values in plain text — North American
//! phone numbers, a carrier's 9+5 billing account number, and call-detail
//! table columns — and turns abstract redaction requests into the concrete
//! list of literal strings a redaction engine must search for. Every
//! matcher and the resolver are verified: their contracts state exactly
//! which substrings are detected and which search strings come out.

pub mod account;
pub mod call_details;
pub mod error;
pub mod matcher;
pub mod pdf_text;
pub mod phone;
pub mod strategy;
pub mod text;

pub use account::VerizonAccountMatcher;
pub use call_details::VerizonCallDetailsMatcher;
pub use error::RedactorError;
pub use error::RedactorResult;
pub use matcher::PatternMatcher;
pub use pdf_text::PdfEscapes;
pub use pdf_text::PdfPatterns;
pub use pdf_text::extract_text_from_page_content;
pub use pdf_text::redact_phone_numbers;
pub use phone::PhoneNumberMatcher;
pub use strategy::RedactionResult;
pub use strategy::RedactionTarget;
pub use strategy::SecureRedactionStrategy;
pub use strategy::build_targets;
pub use strategy::is_redact_all;
pub use strategy::needs_document_text;

use vstd::prelude::*;

verus! {

/// Finds the carrier account number in `text`; a convenience over the
/// account matcher.
pub fn find_verizon_account_number(text: &str) -> (r: Option<String>)
    ensures
        r is Some <==> account::find_account_spec(text@) is Some,
        r is Some ==> r->0@ == account::find_account_spec(text@)->0,
{
    VerizonAccountMatcher::find_account_number(text)
}

/// Generates the search patterns for a detected account value; a
/// convenience over the account matcher.
pub fn generate_account_patterns(account_value: &str) -> (r: Vec<String>)
    ensures
        r@.len() == account::account_variants_spec(account_value@).len(),
        forall|k: int|
            0 <= k < r@.len() ==> r@[k]@ == account::account_variants_spec(account_value@)[k],
        r@.len() >= 1,
{
    let matcher = VerizonAccountMatcher::new();
    matcher.generate_variants(account_value)
}

} // verus!
