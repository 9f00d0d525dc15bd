//! Plain-text recovery from page content streams: the escape sequences
//! used inside string objects, the parenthesized string objects
//! themselves, and bracketed text arrays followed by `TJ`.

use vstd::prelude::*;

use crate::phone::find_phone_at;
use crate::phone::phone_at;
use crate::phone::phone_matches;
use crate::phone::phone_matches_from;

use crate::text::CharClass;
use crate::text::append_range;
use crate::text::chars_of;
use crate::text::copy_range;
use crate::text::find_run_end;
use crate::text::lit_at;
use crate::text::match_lit;
use crate::text::replace_all;
use crate::text::replace_all_chars;
use crate::text::run_end;
use crate::text::string_from;

verus! {

/// The text with the seven escape sequences decoded, in the fixed
/// order: octal space, octal parentheses, newline, carriage return,
/// tab, and doubled backslash last.
pub open spec fn pdf_unescape_spec(s: Seq<char>) -> Seq<char> {
    let s1 = replace_all(s, "\\040"@, " "@);
    let s2 = replace_all(s1, "\\050"@, "("@);
    let s3 = replace_all(s2, "\\051"@, ")"@);
    let s4 = replace_all(s3, "\\n"@, "\n"@);
    let s5 = replace_all(s4, "\\r"@, "\r"@);
    let s6 = replace_all(s5, "\\t"@, "\t"@);
    replace_all(s6, "\\\\"@, "\\"@)
}

/// A parenthesized string object at `i`: the capture span between the
/// parentheses, holding no closing parenthesis.
pub open spec fn paren_at(s: Seq<char>, i: int) -> Option<(int, int)> {
    if 0 <= i < s.len() && s[i] == '(' {
        let r = run_end(CharClass::NotRParen, s, i + 1);
        if r < s.len() {
            Some((i + 1, r))
        } else {
            None
        }
    } else {
        None
    }
}

/// All parenthesized capture spans from position `i` on.
pub open spec fn paren_spans_from(s: Seq<char>, i: int) -> Seq<(int, int)>
    decreases s.len() - i,
{
    if !(0 <= i < s.len()) {
        Seq::empty()
    } else {
        match paren_at(s, i) {
            Some((a, r)) => if i < r + 1 <= s.len() {
                seq![(a, r)] + paren_spans_from(s, r + 1)
            } else {
                paren_spans_from(s, i + 1)
            },
            None => paren_spans_from(s, i + 1),
        }
    }
}

/// A bracketed text array followed by optional whitespace and `TJ` at
/// `i`: the capture span between the brackets and the end of the whole
/// occurrence.
pub open spec fn tj_at(s: Seq<char>, i: int) -> Option<(int, int, int)> {
    if 0 <= i < s.len() && s[i] == '[' {
        let r = run_end(CharClass::NotRBracket, s, i + 1);
        if r < s.len() {
            let w = run_end(CharClass::Space, s, r + 1);
            if lit_at(s, w, "TJ"@) {
                Some((i + 1, r, w + 2))
            } else {
                None
            }
        } else {
            None
        }
    } else {
        None
    }
}

/// All bracketed text-array capture spans from position `i` on.
pub open spec fn tj_spans_from(s: Seq<char>, i: int) -> Seq<(int, int)>
    decreases s.len() - i,
{
    if !(0 <= i < s.len()) {
        Seq::empty()
    } else {
        match tj_at(s, i) {
            Some((a, r, e)) => if i < e <= s.len() {
                seq![(a, r)] + tj_spans_from(s, e)
            } else {
                tj_spans_from(s, i + 1)
            },
            None => tj_spans_from(s, i + 1),
        }
    }
}

/// The capture spans unescaped and joined, a space after each.
pub open spec fn unescaped_parts(s: Seq<char>, spans: Seq<(int, int)>) -> Seq<char>
    decreases spans.len(),
{
    if spans.len() == 0 {
        Seq::empty()
    } else {
        pdf_unescape_spec(s.subrange(spans[0].0, spans[0].1)) + seq![' '] + unescaped_parts(
            s,
            spans.drop_first(),
        )
    }
}

/// The string-object parts of the bracketed text arrays of `s`, each
/// array's parenthesized strings unescaped and joined.
pub open spec fn tj_parts(s: Seq<char>, spans: Seq<(int, int)>) -> Seq<char>
    decreases spans.len(),
{
    if spans.len() == 0 {
        Seq::empty()
    } else {
        let sub = s.subrange(spans[0].0, spans[0].1);
        unescaped_parts(sub, paren_spans_from(sub, 0)) + tj_parts(s, spans.drop_first())
    }
}

/// The text recovered from a page content stream: every parenthesized
/// string object unescaped and joined, then the string objects inside
/// every bracketed text array, likewise.
pub open spec fn page_text_spec(s: Seq<char>) -> Seq<char> {
    unescaped_parts(s, paren_spans_from(s, 0)) + tj_parts(s, tj_spans_from(s, 0))
}

/// Twelve block characters, standing in for one masked phone number.
pub open spec fn mask_block() -> Seq<char> {
    seq!['█', '█', '█', '█', '█', '█', '█', '█', '█', '█', '█', '█']
}

/// The text from position `i` on with every phone match replaced by
/// the block run, leftmost first, non-overlapping; everything between
/// matches is kept verbatim.
pub open spec fn masked_from(s: Seq<char>, i: int) -> Seq<char>
    decreases s.len() - i,
{
    if !(0 <= i < s.len()) {
        Seq::empty()
    } else {
        match phone_at(s, i) {
            Some(m) => if i < m.3 <= s.len() {
                mask_block() + masked_from(s, m.3)
            } else {
                seq![s[i]] + masked_from(s, i + 1)
            },
            None => seq![s[i]] + masked_from(s, i + 1),
        }
    }
}

/// A content stream from position `i` on with the phone numbers inside
/// its string objects masked: a string object holding a phone match is
/// rewritten with every match replaced by the block run; every other
/// string object, and everything outside string objects, is kept
/// verbatim.
pub open spec fn stream_masked_from(s: Seq<char>, i: int) -> Seq<char>
    decreases s.len() - i,
{
    if !(0 <= i < s.len()) {
        Seq::empty()
    } else {
        match paren_at(s, i) {
            Some((a, r)) => if i < r + 1 <= s.len() {
                (if phone_matches(s.subrange(a, r)).len() != 0 {
                    seq!['('] + masked_from(s.subrange(a, r), 0) + seq![')']
                } else {
                    s.subrange(i, r + 1)
                }) + stream_masked_from(s, r + 1)
            } else {
                seq![s[i]] + stream_masked_from(s, i + 1)
            },
            None => seq![s[i]] + stream_masked_from(s, i + 1),
        }
    }
}

/// Exec computation of [`pdf_unescape_spec`] on character vectors.
fn unescape_chars(v: &Vec<char>) -> (r: Vec<char>)
    ensures
        r@ == pdf_unescape_spec(v@),
{
    proof {
        reveal_strlit("\\040");
        reveal_strlit(" ");
        reveal_strlit("\\050");
        reveal_strlit("(");
        reveal_strlit("\\051");
        reveal_strlit(")");
        reveal_strlit("\\n");
        reveal_strlit("\n");
        reveal_strlit("\\r");
        reveal_strlit("\r");
        reveal_strlit("\\t");
        reveal_strlit("\t");
        reveal_strlit("\\\\");
        reveal_strlit("\\");
    }
    let p1 = chars_of("\\040");
    let r1 = chars_of(" ");
    let s1 = replace_all_chars(v, &p1, &r1);
    let p2 = chars_of("\\050");
    let r2 = chars_of("(");
    let s2 = replace_all_chars(&s1, &p2, &r2);
    let p3 = chars_of("\\051");
    let r3 = chars_of(")");
    let s3 = replace_all_chars(&s2, &p3, &r3);
    let p4 = chars_of("\\n");
    let r4 = chars_of("\n");
    let s4 = replace_all_chars(&s3, &p4, &r4);
    let p5 = chars_of("\\r");
    let r5 = chars_of("\r");
    let s5 = replace_all_chars(&s4, &p5, &r5);
    let p6 = chars_of("\\t");
    let r6 = chars_of("\t");
    let s6 = replace_all_chars(&s5, &p6, &r6);
    let p7 = chars_of("\\\\");
    let r7 = chars_of("\\");
    replace_all_chars(&s6, &p7, &r7)
}

/// Exec computation of [`paren_at`].
fn find_paren_at(v: &Vec<char>, i: usize) -> (r: Option<(usize, usize)>)
    requires
        i <= v@.len(),
    ensures
        match r {
            Some((a, e)) => paren_at(v@, i as int) == Some((a as int, e as int)) && i < a <= e
                < v@.len(),
            None => paren_at(v@, i as int) is None,
        },
{
    if i < v.len() && v[i] == '(' {
        let r = find_run_end(CharClass::NotRParen, v, i + 1);
        if r < v.len() {
            Some((i + 1, r))
        } else {
            None
        }
    } else {
        None
    }
}

/// Exec computation of [`tj_at`].
fn find_tj_at(v: &Vec<char>, i: usize) -> (r: Option<(usize, usize, usize)>)
    requires
        i <= v@.len(),
    ensures
        match r {
            Some((a, e, t)) => tj_at(v@, i as int) == Some((a as int, e as int, t as int)) && i < a
                <= e < v@.len() && i < t <= v@.len(),
            None => tj_at(v@, i as int) is None,
        },
{
    proof {
        reveal_strlit("TJ");
        crate::text::lemma_vec_len_bound(v);
    }
    if i < v.len() && v[i] == '[' {
        let r = find_run_end(CharClass::NotRBracket, v, i + 1);
        if r < v.len() {
            let w = find_run_end(CharClass::Space, v, r + 1);
            if match_lit(v, w, "TJ") {
                Some((i + 1, r, w + 2))
            } else {
                None
            }
        } else {
            None
        }
    } else {
        None
    }
}

/// Exec scan of [`paren_spans_from`] over the whole text.
fn scan_paren_spans(v: &Vec<char>) -> (r: Vec<(usize, usize)>)
    ensures
        r@.len() == paren_spans_from(v@, 0).len(),
        forall|k: int|
            0 <= k < r@.len() ==> (#[trigger] r@[k]).0 == paren_spans_from(v@, 0)[k].0
                && r@[k].1 == paren_spans_from(v@, 0)[k].1 && 0 <= r@[k].0 <= r@[k].1 <= v@.len(),
{
    let mut out: Vec<(usize, usize)> = Vec::new();
    let mut i: usize = 0;
    proof {
        assert(crate::call_details::spans_seq(out@) + paren_spans_from(v@, 0) =~= paren_spans_from(
            v@,
            0,
        ));
    }
    while i < v.len()
        invariant
            0 <= i <= v@.len(),
            paren_spans_from(v@, 0) == crate::call_details::spans_seq(out@) + paren_spans_from(
                v@,
                i as int,
            ),
            forall|k: int|
                0 <= k < out@.len() ==> 0 <= (#[trigger] out@[k]).0 <= out@[k].1 <= v@.len(),
        decreases v@.len() - i,
    {
        match find_paren_at(v, i) {
            Some((a, e)) => {
                let ghost out0 = out@;
                out.push((a, e));
                proof {
                    assert(crate::call_details::spans_seq(out@) =~= crate::call_details::spans_seq(
                        out0,
                    ).push((a as int, e as int)));
                    assert(crate::call_details::spans_seq(out@) + paren_spans_from(
                        v@,
                        e as int + 1,
                    ) =~= crate::call_details::spans_seq(out0) + paren_spans_from(v@, i as int));
                }
                i = e + 1;
            },
            None => {
                i = i + 1;
            },
        }
    }
    proof {
        assert(crate::call_details::spans_seq(out@) + paren_spans_from(v@, i as int)
            =~= crate::call_details::spans_seq(out@));
    }
    out
}

/// Exec scan of [`tj_spans_from`] over the whole text.
fn scan_tj_spans(v: &Vec<char>) -> (r: Vec<(usize, usize)>)
    ensures
        r@.len() == tj_spans_from(v@, 0).len(),
        forall|k: int|
            0 <= k < r@.len() ==> (#[trigger] r@[k]).0 == tj_spans_from(v@, 0)[k].0 && r@[k].1
                == tj_spans_from(v@, 0)[k].1 && 0 <= r@[k].0 <= r@[k].1 <= v@.len(),
{
    let mut out: Vec<(usize, usize)> = Vec::new();
    let mut i: usize = 0;
    proof {
        assert(crate::call_details::spans_seq(out@) + tj_spans_from(v@, 0) =~= tj_spans_from(
            v@,
            0,
        ));
    }
    while i < v.len()
        invariant
            0 <= i <= v@.len(),
            tj_spans_from(v@, 0) == crate::call_details::spans_seq(out@) + tj_spans_from(
                v@,
                i as int,
            ),
            forall|k: int|
                0 <= k < out@.len() ==> 0 <= (#[trigger] out@[k]).0 <= out@[k].1 <= v@.len(),
        decreases v@.len() - i,
    {
        match find_tj_at(v, i) {
            Some((a, e, t)) => {
                let ghost out0 = out@;
                out.push((a, e));
                proof {
                    assert(crate::call_details::spans_seq(out@) =~= crate::call_details::spans_seq(
                        out0,
                    ).push((a as int, e as int)));
                    assert(crate::call_details::spans_seq(out@) + tj_spans_from(v@, t as int)
                        =~= crate::call_details::spans_seq(out0) + tj_spans_from(v@, i as int));
                }
                i = t;
            },
            None => {
                i = i + 1;
            },
        }
    }
    proof {
        assert(crate::call_details::spans_seq(out@) + tj_spans_from(v@, i as int)
            =~= crate::call_details::spans_seq(out@));
    }
    out
}

/// The capture spans of `v` unescaped and joined, a space after each.
fn unescaped_parts_exec(v: &Vec<char>, sp: &Vec<(usize, usize)>, ghost_spans: Ghost<Seq<(int, int)>>) -> (r: Vec<char>)
    requires
        sp@.len() == ghost_spans@.len(),
        forall|k: int|
            0 <= k < sp@.len() ==> (#[trigger] sp@[k]).0 == ghost_spans@[k].0 && sp@[k].1
                == ghost_spans@[k].1 && 0 <= sp@[k].0 <= sp@[k].1 <= v@.len(),
    ensures
        r@ == unescaped_parts(v@, ghost_spans@),
{
    let mut out: Vec<char> = Vec::new();
    let mut k: usize = 0;
    proof {
        assert(ghost_spans@.skip(0) =~= ghost_spans@);
        assert(out@ + unescaped_parts(v@, ghost_spans@) =~= unescaped_parts(v@, ghost_spans@));
    }
    while k < sp.len()
        invariant
            0 <= k <= sp@.len(),
            sp@.len() == ghost_spans@.len(),
            forall|j: int|
                0 <= j < sp@.len() ==> (#[trigger] sp@[j]).0 == ghost_spans@[j].0 && sp@[j].1
                    == ghost_spans@[j].1 && 0 <= sp@[j].0 <= sp@[j].1 <= v@.len(),
            unescaped_parts(v@, ghost_spans@) == out@ + unescaped_parts(
                v@,
                ghost_spans@.skip(k as int),
            ),
        decreases sp@.len() - k,
    {
        let (a, b) = sp[k];
        let piece = copy_range(v, a, b);
        let ue = unescape_chars(&piece);
        let ghost out0 = out@;
        let mut j: usize = 0;
        while j < ue.len()
            invariant
                0 <= j <= ue@.len(),
                out@ == out0 + ue@.subrange(0, j as int),
            decreases ue@.len() - j,
        {
            out.push(ue[j]);
            proof {
                assert(out@ =~= out0 + ue@.subrange(0, j as int + 1));
            }
            j = j + 1;
        }
        out.push(' ');
        proof {
            let tail = ghost_spans@.skip(k as int);
            assert(tail[0] == ghost_spans@[k as int]);
            assert(tail.drop_first() =~= ghost_spans@.skip(k as int + 1));
            assert(unescaped_parts(v@, tail) == pdf_unescape_spec(
                v@.subrange(tail[0].0, tail[0].1),
            ) + seq![' '] + unescaped_parts(v@, tail.drop_first()));
            assert(ue@.subrange(0, ue@.len() as int) =~= ue@);
            assert(out@ =~= out0 + ue@ + seq![' ']);
            assert(out@ + unescaped_parts(v@, ghost_spans@.skip(k as int + 1))
                =~= out0 + unescaped_parts(v@, tail));
        }
        k = k + 1;
    }
    proof {
        assert(ghost_spans@.skip(k as int).len() == 0);
        assert(out@ + unescaped_parts(v@, ghost_spans@.skip(k as int)) =~= out@);
    }
    out
}

/// Decoding of the escape sequences that appear inside string objects.
pub struct PdfEscapes {
}

impl PdfEscapes {
    /// Decodes the seven escape sequences of [`pdf_unescape_spec`], in
    /// their fixed order.
    pub fn unescape(text: &str) -> (r: String)
        ensures
            r@ == pdf_unescape_spec(text@),
    {
        let v = chars_of(text);
        let u = unescape_chars(&v);
        string_from(&u)
    }
}

/// The two shapes recognized inside page content streams.
pub struct PdfPatterns {
}

impl PdfPatterns {
    /// The capture of every parenthesized string object of `content`,
    /// left to right.
    pub fn text_strings(content: &str) -> (r: Vec<String>)
        ensures
            r@.len() == paren_spans_from(content@, 0).len(),
            forall|k: int|
                0 <= k < r@.len() ==> r@[k]@ == content@.subrange(
                    paren_spans_from(content@, 0)[k].0,
                    paren_spans_from(content@, 0)[k].1,
                ),
    {
        let v = chars_of(content);
        let sp = scan_paren_spans(&v);
        let mut r: Vec<String> = Vec::new();
        let mut k: usize = 0;
        while k < sp.len()
            invariant
                0 <= k <= sp@.len(),
                sp@.len() == paren_spans_from(v@, 0).len(),
                content@ == v@,
                forall|j: int|
                    0 <= j < sp@.len() ==> (#[trigger] sp@[j]).0 == paren_spans_from(v@, 0)[j].0
                        && sp@[j].1 == paren_spans_from(v@, 0)[j].1 && 0 <= sp@[j].0 <= sp@[j].1
                        <= v@.len(),
                r@.len() == k,
                forall|j: int|
                    0 <= j < k ==> r@[j]@ == v@.subrange(
                        paren_spans_from(v@, 0)[j].0,
                        paren_spans_from(v@, 0)[j].1,
                    ),
            decreases sp@.len() - k,
        {
            let (a, b) = sp[k];
            let piece = copy_range(&v, a, b);
            let s = string_from(&piece);
            r.push(s);
            k = k + 1;
        }
        r
    }

    /// The capture of every bracketed text array of `content` that is
    /// followed by `TJ`, left to right.
    pub fn tj_arrays(content: &str) -> (r: Vec<String>)
        ensures
            r@.len() == tj_spans_from(content@, 0).len(),
            forall|k: int|
                0 <= k < r@.len() ==> r@[k]@ == content@.subrange(
                    tj_spans_from(content@, 0)[k].0,
                    tj_spans_from(content@, 0)[k].1,
                ),
    {
        let v = chars_of(content);
        let sp = scan_tj_spans(&v);
        let mut r: Vec<String> = Vec::new();
        let mut k: usize = 0;
        while k < sp.len()
            invariant
                0 <= k <= sp@.len(),
                sp@.len() == tj_spans_from(v@, 0).len(),
                content@ == v@,
                forall|j: int|
                    0 <= j < sp@.len() ==> (#[trigger] sp@[j]).0 == tj_spans_from(v@, 0)[j].0
                        && sp@[j].1 == tj_spans_from(v@, 0)[j].1 && 0 <= sp@[j].0 <= sp@[j].1
                        <= v@.len(),
                r@.len() == k,
                forall|j: int|
                    0 <= j < k ==> r@[j]@ == v@.subrange(
                        tj_spans_from(v@, 0)[j].0,
                        tj_spans_from(v@, 0)[j].1,
                    ),
            decreases sp@.len() - k,
        {
            let (a, b) = sp[k];
            let piece = copy_range(&v, a, b);
            let s = string_from(&piece);
            r.push(s);
            k = k + 1;
        }
        r
    }
}

/// Appends the block run to `out`.
fn push_mask_block(out: &mut Vec<char>)
    ensures
        final(out)@ == old(out)@ + mask_block(),
{
    let ghost o0 = out@;
    out.push('█');
    out.push('█');
    out.push('█');
    out.push('█');
    out.push('█');
    out.push('█');
    out.push('█');
    out.push('█');
    out.push('█');
    out.push('█');
    out.push('█');
    out.push('█');
    proof {
        assert(out@ =~= o0 + mask_block());
    }
}

/// Exec computation of [`masked_from`] over a whole string object.
fn mask_phones_chars(v: &Vec<char>) -> (r: Vec<char>)
    ensures
        r@ == masked_from(v@, 0),
{
    let mut out: Vec<char> = Vec::new();
    let mut i: usize = 0;
    proof {
        assert(out@ + masked_from(v@, 0) =~= masked_from(v@, 0));
    }
    while i < v.len()
        invariant
            0 <= i <= v@.len(),
            masked_from(v@, 0) == out@ + masked_from(v@, i as int),
        decreases v@.len() - i,
    {
        let step = find_phone_at(v, i);
        let mut matched = false;
        match step {
            Some(m) => {
                if m.3 > i {
                    let ghost out0 = out@;
                    push_mask_block(&mut out);
                    proof {
                        assert(masked_from(v@, i as int) == mask_block() + masked_from(
                            v@,
                            m.3 as int,
                        ));
                        assert(out@ + masked_from(v@, m.3 as int) =~= out0 + masked_from(
                            v@,
                            i as int,
                        ));
                    }
                    i = m.3;
                    matched = true;
                }
            },
            None => {
            },
        }
        if !matched {
            let ghost out0 = out@;
            out.push(v[i]);
            proof {
                assert(masked_from(v@, i as int) == seq![v@[i as int]] + masked_from(
                    v@,
                    i as int + 1,
                ));
                assert(out@ + masked_from(v@, i as int + 1) =~= out0 + masked_from(v@, i as int));
            }
            i = i + 1;
        }
    }
    proof {
        assert(out@ + masked_from(v@, i as int) =~= out@);
    }
    out
}

/// Exec test for whether any phone match occurs in `v`.
fn has_phone_match(v: &Vec<char>) -> (b: bool)
    ensures
        b == (phone_matches(v@).len() != 0),
{
    let mut i: usize = 0;
    while i < v.len()
        invariant
            0 <= i <= v@.len(),
            phone_matches(v@) == phone_matches_from(v@, i as int),
        decreases v@.len() - i,
    {
        match find_phone_at(v, i) {
            Some(m) => {
                if m.3 > i {
                    proof {
                        let gm = (m.0 as int, m.1 as int, m.2 as int, m.3 as int);
                        assert(phone_matches_from(v@, i as int) == seq![(i as int, gm)]
                            + phone_matches_from(v@, m.3 as int));
                    }
                    return true;
                }
                i = i + 1;
            },
            None => {
                i = i + 1;
            },
        }
    }
    false
}

/// Masks the phone numbers inside the string objects of a content
/// stream: a string object holding a phone match has every match
/// replaced by twelve block characters; everything else is kept
/// verbatim.
pub fn redact_phone_numbers(content: &str) -> (r: String)
    ensures
        r@ == stream_masked_from(content@, 0),
{
    let v = chars_of(content);
    let mut out: Vec<char> = Vec::new();
    let mut i: usize = 0;
    proof {
        assert(out@ + stream_masked_from(v@, 0) =~= stream_masked_from(v@, 0));
    }
    while i < v.len()
        invariant
            0 <= i <= v@.len(),
            content@ == v@,
            stream_masked_from(v@, 0) == out@ + stream_masked_from(v@, i as int),
        decreases v@.len() - i,
    {
        match find_paren_at(&v, i) {
            Some((a, e)) => {
                let inner = copy_range(&v, a, e);
                let ghost out0 = out@;
                if has_phone_match(&inner) {
                    out.push('(');
                    let masked = mask_phones_chars(&inner);
                    append_range(&mut out, &masked, 0, masked.len());
                    out.push(')');
                    proof {
                        assert(masked@.subrange(0, masked@.len() as int) =~= masked@);
                        assert(out@ =~= out0 + (seq!['('] + masked_from(
                            v@.subrange(a as int, e as int),
                            0,
                        ) + seq![')']));
                    }
                } else {
                    append_range(&mut out, &v, i, e + 1);
                }
                proof {
                    assert(stream_masked_from(v@, i as int) == (if phone_matches(
                        v@.subrange(a as int, e as int),
                    ).len() != 0 {
                        seq!['('] + masked_from(v@.subrange(a as int, e as int), 0) + seq![')']
                    } else {
                        v@.subrange(i as int, e as int + 1)
                    }) + stream_masked_from(v@, e as int + 1));
                    assert(out@ + stream_masked_from(v@, e as int + 1) =~= out0
                        + stream_masked_from(v@, i as int));
                }
                i = e + 1;
            },
            None => {
                let ghost out0 = out@;
                out.push(v[i]);
                proof {
                    assert(stream_masked_from(v@, i as int) == seq![v@[i as int]]
                        + stream_masked_from(v@, i as int + 1));
                    assert(out@ + stream_masked_from(v@, i as int + 1) =~= out0
                        + stream_masked_from(v@, i as int));
                }
                i = i + 1;
            },
        }
    }
    proof {
        assert(out@ + stream_masked_from(v@, i as int) =~= out@);
    }
    string_from(&out)
}

/// Recovers plain text from a page content stream: every parenthesized
/// string object unescaped and joined, then the string objects inside
/// every `TJ` text array, likewise, each part followed by a space.
pub fn extract_text_from_page_content(content: &str) -> (r: String)
    ensures
        r@ == page_text_spec(content@),
{
    let v = chars_of(content);
    let psp = scan_paren_spans(&v);
    let ghost pgs = paren_spans_from(v@, 0);
    let mut out = unescaped_parts_exec(&v, &psp, Ghost(pgs));

    let tsp = scan_tj_spans(&v);
    let ghost tgs = tj_spans_from(v@, 0);
    let ghost first_part = out@;
    let mut k: usize = 0;
    proof {
        assert(tgs.skip(0) =~= tgs);
        assert(out@ + tj_parts(v@, tgs) =~= first_part + tj_parts(v@, tgs));
    }
    while k < tsp.len()
        invariant
            0 <= k <= tsp@.len(),
            tsp@.len() == tgs.len(),
            forall|j: int|
                0 <= j < tsp@.len() ==> (#[trigger] tsp@[j]).0 == tgs[j].0 && tsp@[j].1
                    == tgs[j].1 && 0 <= tsp@[j].0 <= tsp@[j].1 <= v@.len(),
            first_part + tj_parts(v@, tgs) == out@ + tj_parts(v@, tgs.skip(k as int)),
        decreases tsp@.len() - k,
    {
        let (a, b) = tsp[k];
        let sub = copy_range(&v, a, b);
        let isp = scan_paren_spans(&sub);
        let ghost igs = paren_spans_from(sub@, 0);
        let part = unescaped_parts_exec(&sub, &isp, Ghost(igs));
        let ghost out0 = out@;
        let mut j: usize = 0;
        while j < part.len()
            invariant
                0 <= j <= part@.len(),
                out@ == out0 + part@.subrange(0, j as int),
            decreases part@.len() - j,
        {
            out.push(part[j]);
            proof {
                assert(out@ =~= out0 + part@.subrange(0, j as int + 1));
            }
            j = j + 1;
        }
        proof {
            let tail = tgs.skip(k as int);
            assert(tail[0] == tgs[k as int]);
            assert(tail.drop_first() =~= tgs.skip(k as int + 1));
            assert(tj_parts(v@, tail) == unescaped_parts(
                sub@,
                paren_spans_from(sub@, 0),
            ) + tj_parts(v@, tail.drop_first()));
            assert(part@.subrange(0, part@.len() as int) =~= part@);
            assert(out@ =~= out0 + part@);
            assert(out@ + tj_parts(v@, tgs.skip(k as int + 1)) =~= out0 + tj_parts(v@, tail));
        }
        k = k + 1;
    }
    proof {
        assert(tgs.skip(k as int).len() == 0);
        assert(out@ + tj_parts(v@, tgs.skip(k as int)) =~= out@);
        assert(out@ =~= page_text_spec(v@));
    }
    string_from(&out)
}

} // verus!
