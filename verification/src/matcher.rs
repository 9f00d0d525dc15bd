//! The shared pattern-matching capability: every concrete matcher can
//! list raw matches, normalize a detected value, and spell out the
//! variant forms of a normalized value.

use vstd::prelude::*;

use crate::account::VerizonAccountMatcher;
use crate::call_details::VerizonCallDetailsMatcher;
use crate::phone::PhoneNumberMatcher;

verus! {

/// The capability shared by all matchers. `generate_variants` always
/// returns at least one element — the input itself when no structural
/// variant applies — and `normalize` returns a value only when it
/// passes the matcher's own validation rules.
pub trait PatternMatcher {
    /// All raw substrings of `text` matching the detection grammar.
    fn extract_all(&self, text: &str) -> (r: Vec<String>);

    /// The canonical value of the first match, or nothing.
    fn normalize(&self, text: &str) -> (r: Option<String>);

    /// The variant spellings of a normalized value, never empty.
    fn generate_variants(&self, normalized: &str) -> (r: Vec<String>)
        ensures
            r@.len() >= 1,
    ;
}

impl PatternMatcher for PhoneNumberMatcher {
    fn extract_all(&self, text: &str) -> (r: Vec<String>) {
        PhoneNumberMatcher::extract_all(self, text)
    }

    fn normalize(&self, text: &str) -> (r: Option<String>) {
        PhoneNumberMatcher::normalize(self, text)
    }

    fn generate_variants(&self, normalized: &str) -> (r: Vec<String>) {
        PhoneNumberMatcher::generate_variants(self, normalized)
    }
}

impl PatternMatcher for VerizonAccountMatcher {
    fn extract_all(&self, text: &str) -> (r: Vec<String>) {
        VerizonAccountMatcher::extract_all(self, text)
    }

    fn normalize(&self, text: &str) -> (r: Option<String>) {
        VerizonAccountMatcher::find_account_number(text)
    }

    fn generate_variants(&self, normalized: &str) -> (r: Vec<String>) {
        VerizonAccountMatcher::generate_variants(self, normalized)
    }
}

impl PatternMatcher for VerizonCallDetailsMatcher {
    fn extract_all(&self, text: &str) -> (r: Vec<String>) {
        VerizonCallDetailsMatcher::extract_all(self, text)
    }

    fn normalize(&self, text: &str) -> (r: Option<String>) {
        VerizonCallDetailsMatcher::normalize(self, text)
    }

    fn generate_variants(&self, normalized: &str) -> (r: Vec<String>) {
        VerizonCallDetailsMatcher::generate_variants(self, normalized)
    }
}

} // verus!
