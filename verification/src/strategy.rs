//! Redaction targets, target resolution, and the statistics that an
//! orchestration run accumulates.
//!
//! Resolution turns an ordered list of abstract targets into the flat,
//! order-preserving list of literal strings an engine must search for.
//! A pattern-typed target is rejected in this strategy, and a required
//! account number that is absent raises the pattern-not-found failure;
//! everything else that finds nothing resolves to an empty contribution.

use vstd::prelude::*;

use crate::account::account_variants_spec;
use crate::account::find_account_spec;
use crate::account::VerizonAccountMatcher;
use crate::call_details::dest_values;
use crate::call_details::header_found_from;
use crate::call_details::orig_values;
use crate::call_details::sort_dedup;
use crate::call_details::time_values;
use crate::call_details::VerizonCallDetailsMatcher;
use crate::error::RedactorError;
use crate::phone::phone_matches;
use crate::phone::phone_normalize_spec;
use crate::phone::phone_variants_spec;
use crate::phone::PhoneNumberMatcher;

verus! {

/// A pattern or text to be redacted from a document.
#[derive(Debug, Clone)]
pub enum RedactionTarget {
    /// Exact text match.
    Literal(String),
    /// Regular expression pattern, not supported by the secure strategy.
    Regex(String),
    /// Phone numbers, through the phone matcher.
    PhoneNumbers,
    /// The carrier account number, through the account matcher.
    VerizonAccount,
    /// Call-detail columns, through the call details matcher.
    VerizonCallDetails,
    /// All text: the whole page is redacted.
    AllText,
}

/// Statistics about a redaction operation.
#[derive(Debug, Clone)]
pub struct RedactionResult {
    /// Number of instances redacted.
    pub instances_redacted: usize,
    /// Pages processed.
    pub pages_processed: usize,
    /// Pages with redactions.
    pub pages_modified: usize,
    /// Whether text was physically removed rather than visually
    /// obscured.
    pub secure: bool,
}

impl RedactionResult {
    /// Creates a result indicating no redactions were needed.
    pub fn none() -> (r: Self)
        ensures
            r.instances_redacted == 0,
            r.pages_processed == 0,
            r.pages_modified == 0,
            !r.secure,
    {
        RedactionResult { instances_redacted: 0, pages_processed: 0, pages_modified: 0, secure: false }
    }

    /// Returns true exactly when any redactions were applied.
    pub fn has_redactions(&self) -> (b: bool)
        ensures
            b == (self.instances_redacted > 0),
    {
        self.instances_redacted > 0
    }

    /// Creates the accumulator for a run over `pages` pages of a
    /// physically removing engine.
    pub fn start_run(pages: usize) -> (r: Self)
        ensures
            r.instances_redacted == 0,
            r.pages_processed == pages,
            r.pages_modified == 0,
            r.secure,
    {
        RedactionResult { instances_redacted: 0, pages_processed: pages, pages_modified: 0, secure: true }
    }

    /// Records one processed page on which `regions` redaction regions
    /// were registered: a page with at least one region counts as
    /// modified and adds its regions to the instance count.
    pub fn record_page(&mut self, regions: usize)
        requires
            old(self).instances_redacted + regions <= usize::MAX,
            old(self).pages_modified < usize::MAX,
        ensures
            regions > 0 ==> final(self).instances_redacted == old(self).instances_redacted
                + regions && final(self).pages_modified == old(self).pages_modified + 1,
            regions == 0 ==> *final(self) == *old(self),
            final(self).pages_processed == old(self).pages_processed,
            final(self).secure == old(self).secure,
    {
        if regions > 0 {
            self.instances_redacted = self.instances_redacted + regions;
            self.pages_modified = self.pages_modified + 1;
        }
    }
}

/// The list of search strings that one phone-number hit contributes:
/// the variants of its normalization, or nothing when normalization
/// rejects it.
pub open spec fn phone_hit_patterns(hit: Seq<char>) -> Seq<Seq<char>> {
    match phone_normalize_spec(hit) {
        Some(n) => phone_variants_spec(n),
        None => Seq::empty(),
    }
}

/// The search strings contributed by the phone matches of `text` from
/// index `k` of its match list on.
pub open spec fn phone_patterns_from(text: Seq<char>, k: int) -> Seq<Seq<char>>
    decreases phone_matches(text).len() - k,
{
    if !(0 <= k < phone_matches(text).len()) {
        Seq::empty()
    } else {
        let m = phone_matches(text)[k];
        phone_hit_patterns(text.subrange(m.0, m.1.3)) + phone_patterns_from(text, k + 1)
    }
}

/// Every call-detail column value of `text`, in the extraction order.
pub open spec fn call_detail_values(text: Seq<char>) -> Seq<Seq<char>> {
    time_values(text) + sort_dedup(orig_values(text)) + sort_dedup(dest_values(text))
}

/// Whether a target resolves without failing against `text`.
pub open spec fn target_ok(text: Seq<char>, t: &RedactionTarget) -> bool {
    match t {
        RedactionTarget::Regex(_) => false,
        RedactionTarget::VerizonAccount => find_account_spec(text) is Some,
        _ => true,
    }
}

/// The search strings contributed by one non-failing target.
pub open spec fn target_patterns(text: Seq<char>, t: &RedactionTarget) -> Seq<Seq<char>> {
    match t {
        RedactionTarget::Literal(x) => seq![x@],
        RedactionTarget::Regex(_) => Seq::empty(),
        RedactionTarget::PhoneNumbers => phone_patterns_from(text, 0),
        RedactionTarget::VerizonAccount => match find_account_spec(text) {
            Some(acct) => account_variants_spec(acct),
            None => Seq::empty(),
        },
        RedactionTarget::VerizonCallDetails => if header_found_from(text, 0) {
            call_detail_values(text)
        } else {
            Seq::empty()
        },
        RedactionTarget::AllText => seq![".+"@],
    }
}

/// The index of the first failing target at or after `k`, or the list
/// length when every target resolves.
pub open spec fn first_failing(text: Seq<char>, ts: Seq<RedactionTarget>, k: int) -> int
    decreases ts.len() - k,
{
    if !(0 <= k < ts.len()) {
        ts.len() as int
    } else if !target_ok(text, &ts[k]) {
        k
    } else {
        first_failing(text, ts, k + 1)
    }
}

/// The search strings contributed by the targets from index `k` on,
/// assuming none of them fails.
pub open spec fn resolved_from(text: Seq<char>, ts: Seq<RedactionTarget>, k: int) -> Seq<Seq<char>>
    decreases ts.len() - k,
{
    if !(0 <= k < ts.len()) {
        Seq::empty()
    } else {
        target_patterns(text, &ts[k]) + resolved_from(text, ts, k + 1)
    }
}

/// The failure that resolution reports for the first failing target.
pub open spec fn expected_failure(t: &RedactionTarget, e: &RedactorError) -> bool {
    match t {
        RedactionTarget::Regex(_) => match e {
            RedactorError::InvalidInput { parameter, reason } => parameter@ == "target"@ && reason@
                == "Regex targets not yet supported in secure strategy"@,
            _ => false,
        },
        RedactionTarget::VerizonAccount => match e {
            RedactorError::PatternNotFound { pattern, context } => pattern@
                == "Verizon account number"@ && context@ == "document text"@,
            _ => false,
        },
        _ => false,
    }
}

/// Secure redaction strategy: resolves targets into literal search
/// strings for an engine that physically removes text.
#[derive(Debug, Clone)]
pub struct SecureRedactionStrategy {
    /// Maximum search hits per pattern, bounding worst-case work.
    pub max_hits: u32,
}

impl SecureRedactionStrategy {
    /// Creates a new secure redaction strategy with the default cap of
    /// one hundred hits per pattern.
    pub fn new() -> (r: Self)
        ensures
            r.max_hits == 100,
    {
        SecureRedactionStrategy { max_hits: 100 }
    }

    /// Sets the maximum number of search hits per pattern.
    pub fn with_max_hits(self, max_hits: u32) -> (r: Self)
        ensures
            r.max_hits == max_hits,
    {
        SecureRedactionStrategy { max_hits }
    }

    /// A human-readable name for this strategy.
    pub fn name(&self) -> (r: &'static str)
        ensures
            r@ == "SecureRedaction"@,
    {
        "SecureRedaction"
    }

    /// This strategy physically removes text.
    pub fn is_secure(&self) -> (b: bool)
        ensures
            b,
    {
        true
    }

    /// Resolves the targets against the extracted document text into
    /// the flat list of literal search strings, in target order. The
    /// first pattern-typed target, or the first required account number
    /// that the text does not contain, aborts resolution with the
    /// corresponding failure.
    pub fn resolve_patterns(&self, text: &str, targets: &Vec<RedactionTarget>) -> (r: Result<
        Vec<String>,
        RedactorError,
    >)
        ensures
            match r {
                Ok(ps) => {
                    &&& first_failing(text@, targets@, 0) == targets@.len()
                    &&& ps@.len() == resolved_from(text@, targets@, 0).len()
                    &&& forall|k: int|
                        0 <= k < ps@.len() ==> ps@[k]@ == resolved_from(text@, targets@, 0)[k]
                },
                Err(e) => {
                    &&& first_failing(text@, targets@, 0) < targets@.len()
                    &&& expected_failure(&targets@[first_failing(text@, targets@, 0)], &e)
                },
            },
    {
        let mut out: Vec<String> = Vec::new();
        let mut k: usize = 0;
        while k < targets.len()
            invariant
                0 <= k <= targets@.len(),
                first_failing(text@, targets@, 0) == first_failing(text@, targets@, k as int),
                resolved_from(text@, targets@, 0) == spec_views(out@) + resolved_from(
                    text@,
                    targets@,
                    k as int,
                ),
                out@.len() == spec_views(out@).len(),
                forall|j: int| 0 <= j < out@.len() ==> out@[j]@ == spec_views(out@)[j],
            decreases targets@.len() - k,
        {
            let ghost out0 = out@;
            match &targets[k] {
                RedactionTarget::Literal(x) => {
                    let copy = String::from_str(x.as_str());
                    out.push(copy);
                    proof {
                        lemma_string_views_push(out0, copy);
                        assert(spec_views(out@) =~= spec_views(out0) + seq![x@]);
                    }
                },
                RedactionTarget::Regex(_) => {
                    let parameter = String::from_str("target");
                    let reason = String::from_str(
                        "Regex targets not yet supported in secure strategy",
                    );
                    return Err(RedactorError::InvalidInput { parameter, reason });
                },
                RedactionTarget::PhoneNumbers => {
                    let matcher = PhoneNumberMatcher::new();
                    let hits = matcher.extract_all(text);
                    let mut h: usize = 0;
                    proof {
                        assert(spec_views(out@) + phone_patterns_from(text@, 0) =~= spec_views(
                            out0,
                        ) + phone_patterns_from(text@, 0));
                    }
                    while h < hits.len()
                        invariant
                            0 <= h <= hits@.len(),
                            hits@.len() == phone_matches(text@).len(),
                            forall|j: int|
                                0 <= j < hits@.len() ==> hits@[j]@ == text@.subrange(
                                    phone_matches(text@)[j].0,
                                    phone_matches(text@)[j].1.3,
                                ),
                            spec_views(out0) + phone_patterns_from(text@, 0) == spec_views(out@)
                                + phone_patterns_from(text@, h as int),
                            out@.len() == spec_views(out@).len(),
                            forall|j: int| 0 <= j < out@.len() ==> out@[j]@ == spec_views(out@)[j],
                        decreases hits@.len() - h,
                    {
                        let ghost outh = out@;
                        match matcher.normalize(&hits[h]) {
                            Some(normalized) => {
                                let variants = matcher.generate_variants(&normalized);
                                let mut w: usize = 0;
                                while w < variants.len()
                                    invariant
                                        0 <= w <= variants@.len(),
                                        variants@.len() == phone_variants_spec(
                                            normalized@,
                                        ).len(),
                                        forall|j: int|
                                            0 <= j < variants@.len() ==> variants@[j]@
                                                == phone_variants_spec(normalized@)[j],
                                        spec_views(out@) =~= spec_views(outh)
                                            + phone_variants_spec(normalized@).subrange(
                                            0,
                                            w as int,
                                        ),
                                        out@.len() == spec_views(out@).len(),
                                        forall|j: int|
                                            0 <= j < out@.len() ==> out@[j]@ == spec_views(
                                                out@,
                                            )[j],
                                    decreases variants@.len() - w,
                                {
                                    let ghost outw = out@;
                                    let piece = String::from_str(variants[w].as_str());
                                    out.push(piece);
                                    proof {
                                        lemma_string_views_push(outw, piece);
                                        assert(phone_variants_spec(normalized@).subrange(
                                            0,
                                            w as int + 1,
                                        ) =~= phone_variants_spec(normalized@).subrange(
                                            0,
                                            w as int,
                                        ).push(phone_variants_spec(normalized@)[w as int]));
                                        assert(spec_views(out@) =~= spec_views(outh)
                                            + phone_variants_spec(normalized@).subrange(
                                            0,
                                            w as int + 1,
                                        ));
                                    }
                                    w = w + 1;
                                }
                                proof {
                                    assert(phone_variants_spec(normalized@).subrange(
                                        0,
                                        phone_variants_spec(normalized@).len() as int,
                                    ) =~= phone_variants_spec(normalized@));
                                    assert(phone_hit_patterns(hits@[h as int]@)
                                        == phone_variants_spec(normalized@));
                                    assert(spec_views(out@) + phone_patterns_from(
                                        text@,
                                        h as int + 1,
                                    ) =~= spec_views(outh) + phone_patterns_from(text@, h as int));
                                }
                            },
                            None => {
                                proof {
                                    assert(phone_hit_patterns(hits@[h as int]@)
                                        =~= Seq::<Seq<char>>::empty());
                                    assert(spec_views(out@) + phone_patterns_from(
                                        text@,
                                        h as int + 1,
                                    ) =~= spec_views(outh) + phone_patterns_from(text@, h as int));
                                }
                            },
                        }
                        h = h + 1;
                    }
                    proof {
                        assert(phone_patterns_from(text@, h as int) =~= Seq::<Seq<char>>::empty());
                        assert(spec_views(out@) + Seq::<Seq<char>>::empty() =~= spec_views(out@));
                        assert(spec_views(out@) =~= spec_views(out0) + phone_patterns_from(
                            text@,
                            0,
                        ));
                    }
                },
                RedactionTarget::VerizonAccount => {
                    match VerizonAccountMatcher::find_account_number(text) {
                        Some(acct) => {
                            let matcher = VerizonAccountMatcher::new();
                            let variants = matcher.generate_variants(&acct);
                            let mut w: usize = 0;
                            while w < variants.len()
                                invariant
                                    0 <= w <= variants@.len(),
                                    variants@.len() == account_variants_spec(acct@).len(),
                                    forall|j: int|
                                        0 <= j < variants@.len() ==> variants@[j]@
                                            == account_variants_spec(acct@)[j],
                                    spec_views(out@) =~= spec_views(out0)
                                        + account_variants_spec(acct@).subrange(0, w as int),
                                    out@.len() == spec_views(out@).len(),
                                    forall|j: int|
                                        0 <= j < out@.len() ==> out@[j]@ == spec_views(out@)[j],
                                decreases variants@.len() - w,
                            {
                                let ghost outw = out@;
                                let piece = String::from_str(variants[w].as_str());
                                out.push(piece);
                                proof {
                                    lemma_string_views_push(outw, piece);
                                    assert(account_variants_spec(acct@).subrange(
                                        0,
                                        w as int + 1,
                                    ) =~= account_variants_spec(acct@).subrange(0, w as int).push(
                                        account_variants_spec(acct@)[w as int],
                                    ));
                                    assert(spec_views(out@) =~= spec_views(out0)
                                        + account_variants_spec(acct@).subrange(0, w as int + 1));
                                }
                                w = w + 1;
                            }
                            proof {
                                assert(account_variants_spec(acct@).subrange(
                                    0,
                                    account_variants_spec(acct@).len() as int,
                                ) =~= account_variants_spec(acct@));
                            }
                        },
                        None => {
                            let pattern = String::from_str("Verizon account number");
                            let context = String::from_str("document text");
                            return Err(RedactorError::PatternNotFound { pattern, context });
                        },
                    }
                },
                RedactionTarget::VerizonCallDetails => {
                    if VerizonCallDetailsMatcher::has_call_detail_table(text) {
                        let matcher = VerizonCallDetailsMatcher::new();
                        let details = matcher.extract_all_call_details(text);
                        proof {
                            assert forall|j: int| 0 <= j < details@.len() implies details@[j]@
                                == call_detail_values(text@)[j] by {
                                let tl = time_values(text@).len() as int;
                                let ol = sort_dedup(orig_values(text@)).len() as int;
                                if j < tl {
                                } else if j < tl + ol {
                                    assert(details@[j]@ == sort_dedup(orig_values(text@))[j - tl]);
                                } else {
                                    assert(details@[j]@ == sort_dedup(dest_values(text@))[j - tl
                                        - ol]);
                                }
                            }
                        }
                        let mut w: usize = 0;
                        while w < details.len()
                            invariant
                                0 <= w <= details@.len(),
                                details@.len() == call_detail_values(text@).len(),
                                forall|j: int|
                                    0 <= j < details@.len() ==> details@[j]@ == call_detail_values(
                                        text@,
                                    )[j],
                                spec_views(out@) =~= spec_views(out0) + call_detail_values(
                                    text@,
                                ).subrange(0, w as int),
                                out@.len() == spec_views(out@).len(),
                                forall|j: int|
                                    0 <= j < out@.len() ==> out@[j]@ == spec_views(out@)[j],
                            decreases details@.len() - w,
                        {
                            let ghost outw = out@;
                            let piece = String::from_str(details[w].as_str());
                            out.push(piece);
                            proof {
                                lemma_string_views_push(outw, piece);
                                assert(call_detail_values(text@).subrange(0, w as int + 1)
                                    =~= call_detail_values(text@).subrange(0, w as int).push(
                                    call_detail_values(text@)[w as int],
                                ));
                                assert(spec_views(out@) =~= spec_views(out0) + call_detail_values(
                                    text@,
                                ).subrange(0, w as int + 1));
                            }
                            w = w + 1;
                        }
                        proof {
                            assert(call_detail_values(text@).subrange(
                                0,
                                call_detail_values(text@).len() as int,
                            ) =~= call_detail_values(text@));
                        }
                    }
                },
                RedactionTarget::AllText => {
                    proof {
                        reveal_strlit(".+");
                    }
                    let sentinel = String::from_str(".+");
                    out.push(sentinel);
                    proof {
                        lemma_string_views_push(out0, sentinel);
                        assert(spec_views(out@) =~= spec_views(out0) + seq![".+"@]);
                    }
                },
            }
            proof {
                assert(first_failing(text@, targets@, k as int) == first_failing(
                    text@,
                    targets@,
                    k as int + 1,
                ));
                assert(resolved_from(text@, targets@, k as int) == target_patterns(
                    text@,
                    &targets@[k as int],
                ) + resolved_from(text@, targets@, k as int + 1));
                assert(spec_views(out@) =~= spec_views(out0) + target_patterns(
                    text@,
                    &targets@[k as int],
                ));
                assert(spec_views(out@) + resolved_from(text@, targets@, k as int + 1)
                    =~= spec_views(out0) + resolved_from(text@, targets@, k as int));
            }
            k = k + 1;
        }
        proof {
            assert(resolved_from(text@, targets@, k as int) =~= Seq::<Seq<char>>::empty());
            assert(spec_views(out@) + Seq::<Seq<char>>::empty() =~= spec_views(out@));
        }
        Ok(out)
    }
}

/// The views of a vector of strings.
pub open spec fn spec_views(ps: Seq<String>) -> Seq<Seq<char>> {
    ps.map_values(|s: String| s@)
}

/// Pushing a string corresponds to pushing its view.
proof fn lemma_string_views_push(ps: Seq<String>, x: String)
    ensures
        spec_views(ps.push(x)) == spec_views(ps).push(x@),
{
    assert(spec_views(ps.push(x)) =~= spec_views(ps).push(x@));
}

/// Whether a target consults the document text during resolution.
pub open spec fn target_wants_text(t: &RedactionTarget) -> bool {
    t is PhoneNumbers || t is VerizonAccount || t is VerizonCallDetails
}

/// True exactly when some target consults the document text, so that a
/// caller knows whether text extraction is needed at all.
pub fn needs_document_text(targets: &Vec<RedactionTarget>) -> (b: bool)
    ensures
        b == exists|k: int| 0 <= k < targets@.len() && target_wants_text(&targets@[k]),
{
    let mut k: usize = 0;
    while k < targets.len()
        invariant
            0 <= k <= targets@.len(),
            forall|j: int| 0 <= j < k ==> !target_wants_text(&targets@[j]),
        decreases targets@.len() - k,
    {
        let wants = match &targets[k] {
            RedactionTarget::PhoneNumbers => true,
            RedactionTarget::VerizonAccount => true,
            RedactionTarget::VerizonCallDetails => true,
            _ => false,
        };
        if wants {
            proof {
                assert(target_wants_text(&targets@[k as int]));
            }
            return true;
        }
        k = k + 1;
    }
    false
}

/// True exactly when the resolved pattern list is the single sentinel
/// that stands for redacting every page whole.
pub fn is_redact_all(patterns: &Vec<String>) -> (b: bool)
    ensures
        b == (patterns@.len() == 1 && patterns@[0]@ == ".+"@),
{
    if patterns.len() != 1 {
        return false;
    }
    let sentinel = String::from_str(".+");
    patterns[0] == sentinel
}

/// Builds the ordered target list from command-line style flags: all
/// text alone when requested; otherwise the account bundle (account,
/// phones, call details) when the carrier flag is set, phones when
/// asked for and not already included, and one literal target per
/// supplied pattern.
pub fn build_targets(patterns: &Vec<String>, phones: bool, verizon: bool, all: bool) -> (r: Vec<
    RedactionTarget,
>)
    ensures
        all ==> r@.len() == 1 && r@[0] is AllText,
        !all ==> {
            let base: int = if verizon {
                3int
            } else if phones {
                1int
            } else {
                0int
            };
            &&& r@.len() == base + patterns@.len()
            &&& verizon ==> r@[0] is VerizonAccount && r@[1] is PhoneNumbers && r@[2]
                is VerizonCallDetails
            &&& (phones && !verizon) ==> r@[0] is PhoneNumbers
            &&& forall|j: int|
                0 <= j < patterns@.len() ==> (#[trigger] r@[base + j]) is Literal && r@[base
                    + j]->Literal_0@ == patterns@[j]@
        },
{
    let mut targets: Vec<RedactionTarget> = Vec::new();
    if all {
        targets.push(RedactionTarget::AllText);
        return targets;
    }
    if verizon {
        targets.push(RedactionTarget::VerizonAccount);
        targets.push(RedactionTarget::PhoneNumbers);
        targets.push(RedactionTarget::VerizonCallDetails);
    }
    if phones && !verizon {
        targets.push(RedactionTarget::PhoneNumbers);
    }
    let ghost base = targets@.len() as int;
    let mut j: usize = 0;
    while j < patterns.len()
        invariant
            0 <= j <= patterns@.len(),
            targets@.len() == base + j,
            verizon ==> base == 3 && targets@[0] is VerizonAccount && targets@[1] is PhoneNumbers
                && targets@[2] is VerizonCallDetails,
            (phones && !verizon) ==> base == 1 && targets@[0] is PhoneNumbers,
            (!phones && !verizon) ==> base == 0,
            forall|i: int|
                0 <= i < j ==> (#[trigger] targets@[base + i]) is Literal && targets@[base
                    + i]->Literal_0@ == patterns@[i]@,
        decreases patterns@.len() - j,
    {
        let ghost t0 = targets@;
        let text = String::from_str(patterns[j].as_str());
        targets.push(RedactionTarget::Literal(text));
        proof {
            assert(targets@[base + j as int] == RedactionTarget::Literal(text));
            assert(targets@[base + j as int]->Literal_0@ == patterns@[j as int]@);
            assert(forall|i: int| 0 <= i < j ==> #[trigger] targets@[base + i] == t0[base + i]);
        }
        j = j + 1;
    }
    targets
}

} // verus!
