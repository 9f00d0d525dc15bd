//! Detection of the carrier's 14-digit billing account number,
//! canonically displayed as nine digits, a hyphen and five digits.
//!
//! Detection runs five priority tiers over the text — the 9+5 shape next
//! to an "account" keyword, the 9+5 shape anywhere, fourteen digits next
//! to the keyword, fourteen word-bounded digits anywhere, and a loose
//! keyword-prefixed run of digits, spaces and hyphens. All tiers are
//! collected, duplicates are removed keeping the first (highest-priority)
//! occurrence, and a 14-digit answer is preferred over any other.

use vstd::prelude::*;

use crate::text::CharClass;
use crate::text::append_range;
use crate::text::boundary_after;
use crate::text::boundary_before;
use crate::text::chars_eq;
use crate::text::chars_of;
use crate::text::copy_range;
use crate::text::digit_char;
use crate::text::find_run_end;
use crate::text::is_digit_char;
use crate::text::lemma_views_push;
use crate::text::lit_ci_at;
use crate::text::match_lit_ci;
use crate::text::run_end;
use crate::text::string_from;
use crate::text::views_of;
use crate::text::word_char;

use crate::phone::check_digits_at;
use crate::phone::digits_at;

verus! {

/// End of the "account"/"acct" keyword read case-insensitively at `i`,
/// the longer spelling preferred.
pub open spec fn kw_base_end(s: Seq<char>, i: int) -> Option<int> {
    if lit_ci_at(s, i, "account"@) {
        Some(i + 7)
    } else if lit_ci_at(s, i, "acct"@) {
        Some(i + 4)
    } else {
        None
    }
}

/// End of the optional keyword unit (`number`, `num`, `no` or `#`) after
/// optional whitespace at `j`, tried in that order.
pub open spec fn kw_unit_end(s: Seq<char>, j: int) -> Option<int> {
    let k = run_end(CharClass::Space, s, j);
    if lit_ci_at(s, k, "number"@) {
        Some(k + 6)
    } else if lit_ci_at(s, k, "num"@) {
        Some(k + 3)
    } else if lit_ci_at(s, k, "no"@) {
        Some(k + 2)
    } else if 0 <= k < s.len() && s[k] == '#' {
        Some(k + 1)
    } else {
        None
    }
}

/// Position after the keyword's trailing `ws* :? ws*` started at `j`.
pub open spec fn kw_tail_end(s: Seq<char>, j: int) -> int {
    let a = run_end(CharClass::Space, s, j);
    if 0 <= a < s.len() && s[a] == ':' {
        run_end(CharClass::Space, s, a + 1)
    } else {
        a
    }
}

/// The payload positions that a keyword occurrence at `i` offers: the
/// position after the full keyword phrase, and — when the optional unit
/// word was read — the fallback position without it.
pub open spec fn kw_payload_starts(s: Seq<char>, i: int) -> Option<(int, Option<int>)> {
    match kw_base_end(s, i) {
        Some(j) => match kw_unit_end(s, j) {
            Some(u) => Some((kw_tail_end(s, u), Some(kw_tail_end(s, j)))),
            None => Some((kw_tail_end(s, j), None)),
        },
        None => None,
    }
}

/// The 9+5 shape stands at `p`: nine digits, a hyphen, five digits.
pub open spec fn nine_five_at(s: Seq<char>, p: int) -> bool {
    &&& digits_at(s, p, 9)
    &&& p + 15 <= s.len()
    &&& s[p + 9] == '-'
    &&& digits_at(s, p + 10, 5)
}

/// The fourteen digits of a 9+5 occurrence at `p`.
pub open spec fn nine_five_value(s: Seq<char>, p: int) -> Seq<char> {
    s.subrange(p, p + 9) + s.subrange(p + 10, p + 15)
}

/// Tier 1: a 9+5 shape immediately after a keyword occurrence at `i`.
pub open spec fn tier1_at(s: Seq<char>, i: int) -> Option<Seq<char>> {
    match kw_payload_starts(s, i) {
        Some((p, alt)) => if nine_five_at(s, p) {
            Some(nine_five_value(s, p))
        } else {
            match alt {
                Some(q) => if nine_five_at(s, q) {
                    Some(nine_five_value(s, q))
                } else {
                    None
                },
                None => None,
            }
        },
        None => None,
    }
}

/// The first tier-1 occurrence at or after position `i`.
pub open spec fn tier1_from(s: Seq<char>, i: int) -> Option<Seq<char>>
    decreases s.len() - i,
{
    if !(0 <= i < s.len()) {
        None
    } else {
        match tier1_at(s, i) {
            Some(v) => Some(v),
            None => tier1_from(s, i + 1),
        }
    }
}

/// Tier 2: every 9+5 occurrence, leftmost first, non-overlapping.
pub open spec fn tier2_from(s: Seq<char>, i: int) -> Seq<Seq<char>>
    decreases s.len() - i,
{
    if !(0 <= i < s.len()) {
        Seq::empty()
    } else if nine_five_at(s, i) {
        seq![nine_five_value(s, i)] + tier2_from(s, i + 15)
    } else {
        tier2_from(s, i + 1)
    }
}

/// The start positions of every 9+5 occurrence, leftmost first,
/// non-overlapping.
pub open spec fn nine_five_starts_from(s: Seq<char>, i: int) -> Seq<int>
    decreases s.len() - i,
{
    if !(0 <= i < s.len()) {
        Seq::empty()
    } else if nine_five_at(s, i) {
        seq![i] + nine_five_starts_from(s, i + 15)
    } else {
        nine_five_starts_from(s, i + 1)
    }
}

/// Tier 3: fourteen digits immediately after a keyword occurrence at `i`.
pub open spec fn tier3_at(s: Seq<char>, i: int) -> Option<Seq<char>> {
    match kw_payload_starts(s, i) {
        Some((p, alt)) => if digits_at(s, p, 14) {
            Some(s.subrange(p, p + 14))
        } else {
            match alt {
                Some(q) => if digits_at(s, q, 14) {
                    Some(s.subrange(q, q + 14))
                } else {
                    None
                },
                None => None,
            }
        },
        None => None,
    }
}

/// The first tier-3 occurrence at or after position `i`.
pub open spec fn tier3_from(s: Seq<char>, i: int) -> Option<Seq<char>>
    decreases s.len() - i,
{
    if !(0 <= i < s.len()) {
        None
    } else {
        match tier3_at(s, i) {
            Some(v) => Some(v),
            None => tier3_from(s, i + 1),
        }
    }
}

/// Tier 4: every word-bounded run of exactly fourteen digits.
pub open spec fn tier4_from(s: Seq<char>, i: int) -> Seq<Seq<char>>
    decreases s.len() - i,
{
    if !(0 <= i < s.len()) {
        Seq::empty()
    } else if boundary_before(s, i) && digits_at(s, i, 14) && boundary_after(s, i + 14) {
        seq![s.subrange(i, i + 14)] + tier4_from(s, i + 14)
    } else {
        tier4_from(s, i + 1)
    }
}

/// The digits of `s`, in order.
pub open spec fn digits_of(s: Seq<char>) -> Seq<char>
    decreases s.len(),
{
    if s.len() == 0 {
        Seq::empty()
    } else {
        digits_of(s.drop_last()) + (if is_digit_char(s.last()) {
            seq![s.last()]
        } else {
            Seq::<char>::empty()
        })
    }
}

/// Tier 5 payload at `p`: a run of at least ten characters drawn from
/// digits, whitespace and hyphens, read to its end but at most twenty
/// characters. Returns the end of the read and the digits inside it.
pub open spec fn tier5_payload(s: Seq<char>, p: int) -> Option<(int, Seq<char>)> {
    let e0 = run_end(CharClass::DigitSpaceDash, s, p);
    let e = if e0 > p + 20 {
        p + 20
    } else {
        e0
    };
    if e - p >= 10 {
        Some((e, digits_of(s.subrange(p, e))))
    } else {
        None
    }
}

/// Tier 5: a loose keyword-prefixed account number at `i`: the end of
/// the match and the digits it contains.
pub open spec fn tier5_at(s: Seq<char>, i: int) -> Option<(int, Seq<char>)> {
    match kw_payload_starts(s, i) {
        Some((p, alt)) => match tier5_payload(s, p) {
            Some(x) => Some(x),
            None => match alt {
                Some(q) => tier5_payload(s, q),
                None => None,
            },
        },
        None => None,
    }
}

/// All tier-5 values from position `i` on, keeping only those whose
/// digit count lies between ten and fifteen.
pub open spec fn tier5_from(s: Seq<char>, i: int) -> Seq<Seq<char>>
    decreases s.len() - i,
{
    if !(0 <= i < s.len()) {
        Seq::empty()
    } else {
        match tier5_at(s, i) {
            Some((e, d)) => if i < e <= s.len() {
                (if 10 <= d.len() <= 15 {
                    seq![d]
                } else {
                    Seq::empty()
                }) + tier5_from(s, e)
            } else {
                tier5_from(s, i + 1)
            },
            None => tier5_from(s, i + 1),
        }
    }
}

/// An optional value as a sequence of zero or one elements.
pub open spec fn opt_seq(o: Option<Seq<char>>) -> Seq<Seq<char>> {
    match o {
        Some(v) => seq![v],
        None => Seq::empty(),
    }
}

/// All candidate values of the five tiers, in priority order.
pub open spec fn account_candidates(s: Seq<char>) -> Seq<Seq<char>> {
    opt_seq(tier1_from(s, 0)) + tier2_from(s, 0) + opt_seq(tier3_from(s, 0)) + tier4_from(s, 0)
        + tier5_from(s, 0)
}

/// `cs` with every repeated value removed, keeping first occurrences.
pub open spec fn dedup_first(cs: Seq<Seq<char>>) -> Seq<Seq<char>>
    decreases cs.len(),
{
    if cs.len() == 0 {
        cs
    } else {
        dedup_first(cs.drop_last()) + (if cs.drop_last().contains(cs.last()) {
            Seq::<Seq<char>>::empty()
        } else {
            seq![cs.last()]
        })
    }
}

/// The first candidate of length fourteen at or after index `k`.
pub open spec fn first_fourteen_from(cs: Seq<Seq<char>>, k: int) -> Option<Seq<char>>
    decreases cs.len() - k,
{
    if !(0 <= k < cs.len()) {
        None
    } else if cs[k].len() == 14 {
        Some(cs[k])
    } else {
        first_fourteen_from(cs, k + 1)
    }
}

/// The selection rule over the deduplicated candidates: the first
/// 14-digit value if any, else the first value, else nothing.
pub open spec fn pick_candidate(cs: Seq<Seq<char>>) -> Option<Seq<char>> {
    match first_fourteen_from(cs, 0) {
        Some(v) => Some(v),
        None => if cs.len() > 0 {
            Some(cs[0])
        } else {
            None
        },
    }
}

/// What account detection returns on `s`.
pub open spec fn find_account_spec(s: Seq<char>) -> Option<Seq<char>> {
    pick_candidate(dedup_first(account_candidates(s)))
}

/// The variant spellings generated for a detected value: the 9+5 splits
/// for fourteen characters, the 4-4-4 and 6-6 splits for twelve, the
/// midpoint splits for ten or more, the value alone otherwise.
pub open spec fn account_variants_spec(n: Seq<char>) -> Seq<Seq<char>> {
    if n.len() == 14 {
        seq![
            n,
            n.subrange(0, 9) + seq!['-'] + n.subrange(9, 14),
            n.subrange(0, 9) + seq![' '] + n.subrange(9, 14),
        ]
    } else if n.len() == 12 {
        seq![
            n,
            n.subrange(0, 4) + seq!['-'] + n.subrange(4, 8) + seq!['-'] + n.subrange(8, 12),
            n.subrange(0, 6) + seq!['-'] + n.subrange(6, 12),
        ]
    } else if n.len() >= 10 {
        seq![
            n,
            n.subrange(0, n.len() as int / 2) + seq!['-'] + n.subrange(n.len() as int / 2, n.len() as int),
            n.subrange(0, n.len() as int / 2) + seq![' '] + n.subrange(n.len() as int / 2, n.len() as int),
        ]
    } else {
        seq![n]
    }
}

/// Exec computation of [`kw_base_end`].
fn find_kw_base_end(v: &Vec<char>, i: usize) -> (r: Option<usize>)
    requires
        i <= v@.len(),
    ensures
        match r {
            Some(j) => kw_base_end(v@, i as int) == Some(j as int) && i <= j <= v@.len(),
            None => kw_base_end(v@, i as int) is None,
        },
{
    proof {
        crate::text::lemma_vec_len_bound(v);
    }
    if match_lit_ci(v, i, "account") {
        proof {
            reveal_strlit("account");
        }
        Some(i + 7)
    } else if match_lit_ci(v, i, "acct") {
        proof {
            reveal_strlit("acct");
        }
        Some(i + 4)
    } else {
        None
    }
}

/// Exec computation of [`kw_unit_end`].
fn find_kw_unit_end(v: &Vec<char>, j: usize) -> (r: Option<usize>)
    requires
        j <= v@.len(),
    ensures
        match r {
            Some(u) => kw_unit_end(v@, j as int) == Some(u as int) && j <= u <= v@.len(),
            None => kw_unit_end(v@, j as int) is None,
        },
{
    let k = find_run_end(CharClass::Space, v, j);
    proof {
        crate::text::lemma_vec_len_bound(v);
    }
    if match_lit_ci(v, k, "number") {
        proof {
            reveal_strlit("number");
        }
        Some(k + 6)
    } else if match_lit_ci(v, k, "num") {
        proof {
            reveal_strlit("num");
        }
        Some(k + 3)
    } else if match_lit_ci(v, k, "no") {
        proof {
            reveal_strlit("no");
        }
        Some(k + 2)
    } else if k < v.len() && v[k] == '#' {
        Some(k + 1)
    } else {
        None
    }
}

/// Exec computation of [`kw_tail_end`].
fn find_kw_tail_end(v: &Vec<char>, j: usize) -> (r: usize)
    requires
        j <= v@.len(),
    ensures
        r as int == kw_tail_end(v@, j as int),
        j <= r <= v@.len(),
{
    let a = find_run_end(CharClass::Space, v, j);
    if a < v.len() && v[a] == ':' {
        find_run_end(CharClass::Space, v, a + 1)
    } else {
        a
    }
}

/// Exec computation of [`kw_payload_starts`].
fn find_kw_payload_starts(v: &Vec<char>, i: usize) -> (r: Option<(usize, Option<usize>)>)
    requires
        i <= v@.len(),
    ensures
        match r {
            Some((p, alt)) => {
                &&& p <= v@.len()
                &&& match alt {
                    Some(q) => kw_payload_starts(v@, i as int) == Some(
                        (p as int, Some(q as int)),
                    ) && q <= v@.len(),
                    None => kw_payload_starts(v@, i as int) == Some(
                        (p as int, None::<int>),
                    ),
                }
            },
            None => kw_payload_starts(v@, i as int) is None,
        },
{
    match find_kw_base_end(v, i) {
        Some(j) => match find_kw_unit_end(v, j) {
            Some(u) => Some((find_kw_tail_end(v, u), Some(find_kw_tail_end(v, j)))),
            None => Some((find_kw_tail_end(v, j), None)),
        },
        None => None,
    }
}

/// Exec test for [`nine_five_at`].
fn check_nine_five_at(v: &Vec<char>, p: usize) -> (b: bool)
    ensures
        b == nine_five_at(v@, p as int),
{
    if !check_digits_at(v, p, 9) {
        return false;
    }
    if v.len() - p < 15 {
        return false;
    }
    v[p + 9] == '-' && check_digits_at(v, p + 10, 5)
}

/// The fourteen digits of a 9+5 occurrence at `p`, as a vector.
fn take_nine_five_value(v: &Vec<char>, p: usize) -> (c: Vec<char>)
    requires
        nine_five_at(v@, p as int),
        p + 15 <= v@.len(),
    ensures
        c@ == nine_five_value(v@, p as int),
{
    proof {
        crate::text::lemma_vec_len_bound(v);
    }
    let mut c = copy_range(v, p, p + 9);
    append_range(&mut c, v, p + 10, p + 15);
    c
}

/// Exec computation of [`tier1_at`].
fn find_tier1_at(v: &Vec<char>, i: usize) -> (r: Option<Vec<char>>)
    requires
        i <= v@.len(),
    ensures
        match r {
            Some(c) => tier1_at(v@, i as int) == Some(c@),
            None => tier1_at(v@, i as int) is None,
        },
{
    match find_kw_payload_starts(v, i) {
        Some((p, alt)) => {
            if check_nine_five_at(v, p) {
                Some(take_nine_five_value(v, p))
            } else {
                match alt {
                    Some(q) => {
                        if check_nine_five_at(v, q) {
                            Some(take_nine_five_value(v, q))
                        } else {
                            None
                        }
                    },
                    None => None,
                }
            }
        },
        None => None,
    }
}

/// Exec computation of [`tier1_from`] over the whole text.
fn find_tier1(v: &Vec<char>) -> (r: Option<Vec<char>>)
    ensures
        match r {
            Some(c) => tier1_from(v@, 0) == Some(c@),
            None => tier1_from(v@, 0) is None,
        },
{
    let mut i: usize = 0;
    while i < v.len()
        invariant
            0 <= i <= v@.len(),
            tier1_from(v@, 0) == tier1_from(v@, i as int),
        decreases v@.len() - i,
    {
        match find_tier1_at(v, i) {
            Some(c) => {
                return Some(c);
            },
            None => {
                i = i + 1;
            },
        }
    }
    None
}

/// Exec computation of [`tier2_from`] over the whole text.
fn find_tier2(v: &Vec<char>) -> (r: Vec<Vec<char>>)
    ensures
        views_of(r@) == tier2_from(v@, 0),
{
    let mut out: Vec<Vec<char>> = Vec::new();
    let mut i: usize = 0;
    proof {
        assert(views_of(out@) + tier2_from(v@, 0) =~= tier2_from(v@, 0));
    }
    while i < v.len()
        invariant
            0 <= i <= v@.len(),
            tier2_from(v@, 0) == views_of(out@) + tier2_from(v@, i as int),
        decreases v@.len() - i,
    {
        if check_nine_five_at(v, i) {
            let ghost out0 = out@;
            let c = take_nine_five_value(v, i);
            out.push(c);
            proof {
                lemma_views_push(out0, c);
                assert(tier2_from(v@, i as int) == seq![nine_five_value(v@, i as int)]
                    + tier2_from(v@, i as int + 15));
                assert(views_of(out@) + tier2_from(v@, i as int + 15) =~= views_of(out0)
                    + tier2_from(v@, i as int));
            }
            i = i + 15;
        } else {
            i = i + 1;
        }
    }
    proof {
        assert(views_of(out@) + tier2_from(v@, i as int) =~= views_of(out@));
    }
    out
}

/// Exec computation of [`tier3_at`].
fn find_tier3_at(v: &Vec<char>, i: usize) -> (r: Option<Vec<char>>)
    requires
        i <= v@.len(),
    ensures
        match r {
            Some(c) => tier3_at(v@, i as int) == Some(c@),
            None => tier3_at(v@, i as int) is None,
        },
{
    proof {
        crate::text::lemma_vec_len_bound(v);
    }
    match find_kw_payload_starts(v, i) {
        Some((p, alt)) => {
            if check_digits_at(v, p, 14) {
                Some(copy_range(v, p, p + 14))
            } else {
                match alt {
                    Some(q) => {
                        if check_digits_at(v, q, 14) {
                            Some(copy_range(v, q, q + 14))
                        } else {
                            None
                        }
                    },
                    None => None,
                }
            }
        },
        None => None,
    }
}

/// Exec computation of [`tier3_from`] over the whole text.
fn find_tier3(v: &Vec<char>) -> (r: Option<Vec<char>>)
    ensures
        match r {
            Some(c) => tier3_from(v@, 0) == Some(c@),
            None => tier3_from(v@, 0) is None,
        },
{
    let mut i: usize = 0;
    while i < v.len()
        invariant
            0 <= i <= v@.len(),
            tier3_from(v@, 0) == tier3_from(v@, i as int),
        decreases v@.len() - i,
    {
        match find_tier3_at(v, i) {
            Some(c) => {
                return Some(c);
            },
            None => {
                i = i + 1;
            },
        }
    }
    None
}

/// Exec computation of [`tier4_from`] over the whole text.
fn find_tier4(v: &Vec<char>) -> (r: Vec<Vec<char>>)
    ensures
        views_of(r@) == tier4_from(v@, 0),
{
    let mut out: Vec<Vec<char>> = Vec::new();
    let mut i: usize = 0;
    proof {
        assert(views_of(out@) + tier4_from(v@, 0) =~= tier4_from(v@, 0));
    }
    while i < v.len()
        invariant
            0 <= i <= v@.len(),
            tier4_from(v@, 0) == views_of(out@) + tier4_from(v@, i as int),
        decreases v@.len() - i,
    {
        let bounded = (i == 0 || !word_char(v[i - 1])) && check_digits_at(v, i, 14) && (i + 14
            == v.len() || !word_char(v[i + 14]));
        if bounded {
            let ghost out0 = out@;
            let c = copy_range(v, i, i + 14);
            out.push(c);
            proof {
                lemma_views_push(out0, c);
                assert(tier4_from(v@, i as int) == seq![v@.subrange(i as int, i as int + 14)]
                    + tier4_from(v@, i as int + 14));
                assert(views_of(out@) + tier4_from(v@, i as int + 14) =~= views_of(out0)
                    + tier4_from(v@, i as int));
            }
            i = i + 14;
        } else {
            i = i + 1;
        }
    }
    proof {
        assert(views_of(out@) + tier4_from(v@, i as int) =~= views_of(out@));
    }
    out
}

/// The digits of `v[p..e]`, as a vector.
fn collect_digits(v: &Vec<char>, p: usize, e: usize) -> (d: Vec<char>)
    requires
        p <= e <= v@.len(),
    ensures
        d@ == digits_of(v@.subrange(p as int, e as int)),
{
    let mut d: Vec<char> = Vec::new();
    let mut k: usize = p;
    proof {
        assert(v@.subrange(p as int, p as int).len() == 0);
        assert(d@ =~= digits_of(v@.subrange(p as int, p as int)));
    }
    while k < e
        invariant
            p <= k <= e <= v@.len(),
            d@ == digits_of(v@.subrange(p as int, k as int)),
        decreases e - k,
    {
        let ghost pre = v@.subrange(p as int, k as int);
        let ghost ext = v@.subrange(p as int, k as int + 1);
        proof {
            assert(ext.drop_last() =~= pre);
            assert(ext.last() == v@[k as int]);
        }
        if digit_char(v[k]) {
            d.push(v[k]);
            proof {
                assert(d@ =~= digits_of(ext));
            }
        } else {
            proof {
                assert(digits_of(ext) =~= digits_of(pre) + Seq::<char>::empty());
                assert(d@ =~= digits_of(ext));
            }
        }
        k = k + 1;
    }
    d
}

/// Exec computation of [`tier5_payload`].
fn find_tier5_payload(v: &Vec<char>, p: usize) -> (r: Option<(usize, Vec<char>)>)
    requires
        p <= v@.len(),
    ensures
        match r {
            Some((e, d)) => tier5_payload(v@, p as int) == Some((e as int, d@)) && p <= e
                <= v@.len(),
            None => tier5_payload(v@, p as int) is None,
        },
{
    let e0 = find_run_end(CharClass::DigitSpaceDash, v, p);
    let e: usize = if e0 - p > 20 {
        p + 20
    } else {
        e0
    };
    if e - p >= 10 {
        let d = collect_digits(v, p, e);
        Some((e, d))
    } else {
        None
    }
}

/// Exec computation of [`tier5_at`].
fn find_tier5_at(v: &Vec<char>, i: usize) -> (r: Option<(usize, Vec<char>)>)
    requires
        i <= v@.len(),
    ensures
        match r {
            Some((e, d)) => tier5_at(v@, i as int) == Some((e as int, d@)) && e <= v@.len(),
            None => tier5_at(v@, i as int) is None,
        },
{
    match find_kw_payload_starts(v, i) {
        Some((p, alt)) => match find_tier5_payload(v, p) {
            Some(x) => Some(x),
            None => match alt {
                Some(q) => find_tier5_payload(v, q),
                None => None,
            },
        },
        None => None,
    }
}

/// Exec computation of [`tier5_from`] over the whole text.
fn find_tier5(v: &Vec<char>) -> (r: Vec<Vec<char>>)
    ensures
        views_of(r@) == tier5_from(v@, 0),
{
    let mut out: Vec<Vec<char>> = Vec::new();
    let mut i: usize = 0;
    proof {
        assert(views_of(out@) + tier5_from(v@, 0) =~= tier5_from(v@, 0));
    }
    while i < v.len()
        invariant
            0 <= i <= v@.len(),
            tier5_from(v@, 0) == views_of(out@) + tier5_from(v@, i as int),
        decreases v@.len() - i,
    {
        match find_tier5_at(v, i) {
            Some((e, d)) => {
                if e > i {
                    let ghost out0 = out@;
                    let keep = 10 <= d.len() && d.len() <= 15;
                    if keep {
                        out.push(d);
                        proof {
                            lemma_views_push(out0, d);
                        }
                    }
                    proof {
                        assert(views_of(out@) + tier5_from(v@, e as int) =~= views_of(out0)
                            + tier5_from(v@, i as int));
                    }
                    i = e;
                } else {
                    i = i + 1;
                }
            },
            None => {
                i = i + 1;
            },
        }
    }
    proof {
        assert(views_of(out@) + tier5_from(v@, i as int) =~= views_of(out@));
    }
    out
}

/// Deduplication by value keeps exactly the values of its input: no
/// candidate is lost, none is invented.
pub proof fn lemma_dedup_contains(cs: Seq<Seq<char>>)
    ensures
        forall|x: Seq<char>| dedup_first(cs).contains(x) <==> cs.contains(x),
    decreases cs.len(),
{
    if cs.len() > 0 {
        lemma_dedup_contains(cs.drop_last());
        assert forall|x: Seq<char>| cs.contains(x) implies dedup_first(cs).contains(x) by {
            let k = choose|k: int| 0 <= k < cs.len() && cs[k] == x;
            if k < cs.len() - 1 {
                assert(cs.drop_last()[k] == x);
                assert(cs.drop_last().contains(x));
                let j = choose|j: int|
                    0 <= j < dedup_first(cs.drop_last()).len() && dedup_first(cs.drop_last())[j]
                        == x;
                assert(dedup_first(cs)[j] == x);
            } else {
                if cs.drop_last().contains(x) {
                    let j = choose|j: int|
                        0 <= j < dedup_first(cs.drop_last()).len() && dedup_first(
                            cs.drop_last(),
                        )[j] == x;
                    assert(dedup_first(cs)[j] == x);
                } else {
                    assert(dedup_first(cs).last() == x);
                }
            }
        }
        assert forall|x: Seq<char>| dedup_first(cs).contains(x) implies cs.contains(x) by {
            let j = choose|j: int| 0 <= j < dedup_first(cs).len() && dedup_first(cs)[j] == x;
            if j < dedup_first(cs.drop_last()).len() {
                assert(dedup_first(cs.drop_last())[j] == x);
                assert(dedup_first(cs.drop_last()).contains(x));
                assert(cs.drop_last().contains(x));
                let k = choose|k: int| 0 <= k < cs.drop_last().len() && cs.drop_last()[k] == x;
                assert(cs.drop_last()[k] == cs[k]);
                assert(cs[k] == x);
            } else {
                assert(x == cs.last());
                assert(cs[cs.len() - 1] == x);
            }
        }
    }
}

/// The first candidate of length fourteen exists whenever any
/// candidate of that length does.
proof fn lemma_first_fourteen(cs: Seq<Seq<char>>, j: int, k: int)
    requires
        0 <= j <= k < cs.len(),
        cs[k].len() == 14,
    ensures
        first_fourteen_from(cs, j) is Some,
        first_fourteen_from(cs, j)->0.len() == 14,
    decreases k - j,
{
    if cs[j].len() != 14 {
        lemma_first_fourteen(cs, j + 1, k);
    }
}

/// Detection always prefers a 14-digit answer: whenever any collected
/// candidate value has length fourteen, the detected value has length
/// fourteen, whatever tier either came from.
pub proof fn lemma_prefers_fourteen(s: Seq<char>, k: int)
    requires
        0 <= k < account_candidates(s).len(),
        account_candidates(s)[k].len() == 14,
    ensures
        find_account_spec(s) is Some,
        find_account_spec(s)->0.len() == 14,
{
    let cands = account_candidates(s);
    let dd = dedup_first(cands);
    lemma_dedup_contains(cands);
    assert(cands.contains(cands[k]));
    assert(dd.contains(cands[k]));
    let j = choose|j: int| 0 <= j < dd.len() && dd[j] == cands[k];
    lemma_first_fourteen(dd, 0, j);
}

/// Exec membership of a value among collected candidates.
fn contains_value(cs: &Vec<Vec<char>>, x: &Vec<char>) -> (r: bool)
    ensures
        r == views_of(cs@).contains(x@),
{
    let mut k: usize = 0;
    while k < cs.len()
        invariant
            0 <= k <= cs@.len(),
            forall|j: int| 0 <= j < k ==> views_of(cs@)[j] != x@,
        decreases cs@.len() - k,
    {
        if chars_eq(&cs[k], x) {
            proof {
                assert(views_of(cs@)[k as int] == x@);
            }
            return true;
        }
        k = k + 1;
    }
    proof {
        assert(forall|j: int| 0 <= j < views_of(cs@).len() ==> views_of(cs@)[j] != x@);
    }
    false
}

/// Exec deduplication keeping first occurrences.
fn dedup_candidates(cs: Vec<Vec<char>>) -> (r: Vec<Vec<char>>)
    ensures
        views_of(r@) == dedup_first(views_of(cs@)),
{
    let mut out: Vec<Vec<char>> = Vec::new();
    let mut k: usize = 0;
    proof {
        assert(views_of(out@) =~= dedup_first(views_of(cs@).subrange(0, 0)));
    }
    while k < cs.len()
        invariant
            0 <= k <= cs@.len(),
            views_of(out@) == dedup_first(views_of(cs@).subrange(0, k as int)),
        decreases cs@.len() - k,
    {
        let ghost prefix = views_of(cs@).subrange(0, k as int);
        let ghost extended = views_of(cs@).subrange(0, k as int + 1);
        proof {
            assert(extended.drop_last() =~= prefix);
            assert(extended.last() == views_of(cs@)[k as int]);
            lemma_dedup_contains(prefix);
        }
        let present = contains_value(&out, &cs[k]);
        if !present {
            let ghost out0 = out@;
            let c = copy_range(&cs[k], 0, cs[k].len());
            out.push(c);
            proof {
                lemma_views_push(out0, c);
                assert(c@ =~= cs@[k as int]@);
                assert(views_of(out@) =~= dedup_first(extended));
            }
        } else {
            proof {
                assert(prefix.contains(views_of(cs@)[k as int]));
                assert(views_of(out@) =~= dedup_first(extended));
            }
        }
        k = k + 1;
    }
    proof {
        assert(views_of(cs@).subrange(0, cs@.len() as int) =~= views_of(cs@));
    }
    out
}

/// Exec selection of the final candidate.
fn pick_from(cs: &Vec<Vec<char>>) -> (r: Option<Vec<char>>)
    ensures
        match r {
            Some(c) => pick_candidate(views_of(cs@)) == Some(c@),
            None => pick_candidate(views_of(cs@)) is None,
        },
{
    let mut k: usize = 0;
    while k < cs.len()
        invariant
            0 <= k <= cs@.len(),
            first_fourteen_from(views_of(cs@), 0) == first_fourteen_from(views_of(cs@), k as int),
        decreases cs@.len() - k,
    {
        if cs[k].len() == 14 {
            proof {
                assert(views_of(cs@)[k as int].len() == 14);
            }
            return Some(copy_range(&cs[k], 0, cs[k].len()));
        }
        proof {
            assert(views_of(cs@)[k as int].len() != 14);
        }
        k = k + 1;
    }
    if cs.len() > 0 {
        let c = copy_range(&cs[0], 0, cs[0].len());
        proof {
            assert(c@ =~= views_of(cs@)[0]);
        }
        Some(c)
    } else {
        None
    }
}

/// Matcher for the carrier's account number in its 9+5 display format.
pub struct VerizonAccountMatcher {
}

impl VerizonAccountMatcher {
    /// Creates a new account number matcher.
    pub fn new() -> (r: Self) {
        VerizonAccountMatcher {  }
    }

    /// Extracts the most likely account number from `text`, running all
    /// five priority tiers, deduplicating, and preferring a value of
    /// fourteen digits.
    pub fn find_account_number(text: &str) -> (r: Option<String>)
        ensures
            r is Some <==> find_account_spec(text@) is Some,
            r is Some ==> r->0@ == find_account_spec(text@)->0,
    {
        let v = chars_of(text);
        let mut cands: Vec<Vec<char>> = Vec::new();
        match find_tier1(&v) {
            Some(c) => {
                cands.push(c);
            },
            None => {
            },
        }
        proof {
            assert(views_of(cands@) =~= opt_seq(tier1_from(v@, 0)));
        }
        let mut t2 = find_tier2(&v);
        let ghost t2v = views_of(t2@);
        cands.append(&mut t2);
        proof {
            assert(views_of(cands@) =~= opt_seq(tier1_from(v@, 0)) + tier2_from(v@, 0));
        }
        match find_tier3(&v) {
            Some(c) => {
                let ghost c2 = cands@;
                cands.push(c);
                proof {
                    lemma_views_push(c2, c);
                }
            },
            None => {
            },
        }
        proof {
            assert(views_of(cands@) =~= opt_seq(tier1_from(v@, 0)) + tier2_from(v@, 0) + opt_seq(
                tier3_from(v@, 0),
            ));
        }
        let mut t4 = find_tier4(&v);
        let ghost t4v = views_of(t4@);
        cands.append(&mut t4);
        proof {
            assert(views_of(cands@) =~= opt_seq(tier1_from(v@, 0)) + tier2_from(v@, 0) + opt_seq(
                tier3_from(v@, 0),
            ) + tier4_from(v@, 0));
        }
        let mut t5 = find_tier5(&v);
        let ghost t5v = views_of(t5@);
        cands.append(&mut t5);
        proof {
            assert(views_of(cands@) =~= opt_seq(tier1_from(v@, 0)) + tier2_from(v@, 0) + opt_seq(
                tier3_from(v@, 0),
            ) + tier4_from(v@, 0) + tier5_from(v@, 0));
            assert(views_of(cands@) =~= account_candidates(v@));
        }
        let dd = dedup_candidates(cands);
        match pick_from(&dd) {
            Some(c) => {
                let s = string_from(&c);
                Some(s)
            },
            None => None,
        }
    }

    /// Returns every raw 9+5 occurrence of `text` — hyphen included —
    /// left to right, non-overlapping.
    pub fn extract_all(&self, text: &str) -> (r: Vec<String>)
        ensures
            r@.len() == nine_five_starts_from(text@, 0).len(),
            forall|k: int|
                0 <= k < r@.len() ==> r@[k]@ == text@.subrange(
                    nine_five_starts_from(text@, 0)[k],
                    nine_five_starts_from(text@, 0)[k] + 15,
                ),
    {
        let v = chars_of(text);
        let mut out: Vec<String> = Vec::new();
        let ghost done: Seq<int> = Seq::empty();
        proof {
            assert(done + nine_five_starts_from(v@, 0) =~= nine_five_starts_from(v@, 0));
        }
        let ghost mut done = done;
        let mut i: usize = 0;
        while i < v.len()
            invariant
                0 <= i <= v@.len(),
                text@ == v@,
                nine_five_starts_from(v@, 0) == done + nine_five_starts_from(v@, i as int),
                out@.len() == done.len(),
                forall|k: int|
                    0 <= k < done.len() ==> out@[k]@ == v@.subrange(done[k], done[k] + 15),
            decreases v@.len() - i,
        {
            if check_nine_five_at(&v, i) {
                let piece = copy_range(&v, i, i + 15);
                let s = string_from(&piece);
                out.push(s);
                proof {
                    assert(nine_five_starts_from(v@, i as int) == seq![i as int]
                        + nine_five_starts_from(v@, i as int + 15));
                    done = done + seq![i as int];
                    assert(nine_five_starts_from(v@, 0) == done + nine_five_starts_from(
                        v@,
                        i as int + 15,
                    ));
                }
                i = i + 15;
            } else {
                i = i + 1;
            }
        }
        proof {
            assert(done + nine_five_starts_from(v@, i as int) =~= done);
        }
        out
    }

    /// Generates the variant spellings of a detected value: the 9+5
    /// splits for fourteen characters, the 4-4-4 and 6-6 splits for
    /// twelve, the midpoint splits for ten or more, the value alone
    /// otherwise.
    pub fn generate_variants(&self, normalized: &str) -> (r: Vec<String>)
        ensures
            r@.len() == account_variants_spec(normalized@).len(),
            forall|k: int|
                0 <= k < r@.len() ==> r@[k]@ == account_variants_spec(normalized@)[k],
            r@.len() >= 1,
    {
        let v = chars_of(normalized);
        let mut out: Vec<String> = Vec::new();
        let s0 = string_from(&v);
        out.push(s0);
        if v.len() == 14 {
            let mut v1 = copy_range(&v, 0, 9);
            v1.push('-');
            append_range(&mut v1, &v, 9, 14);
            proof {
                assert(v1@ =~= v@.subrange(0, 9) + seq!['-'] + v@.subrange(9, 14));
            }
            let s1 = string_from(&v1);
            out.push(s1);
            let mut v2 = copy_range(&v, 0, 9);
            v2.push(' ');
            append_range(&mut v2, &v, 9, 14);
            proof {
                assert(v2@ =~= v@.subrange(0, 9) + seq![' '] + v@.subrange(9, 14));
            }
            let s2 = string_from(&v2);
            out.push(s2);
        } else if v.len() == 12 {
            let mut v1 = copy_range(&v, 0, 4);
            v1.push('-');
            append_range(&mut v1, &v, 4, 8);
            v1.push('-');
            append_range(&mut v1, &v, 8, 12);
            proof {
                assert(v1@ =~= v@.subrange(0, 4) + seq!['-'] + v@.subrange(4, 8) + seq!['-']
                    + v@.subrange(8, 12));
            }
            let s1 = string_from(&v1);
            out.push(s1);
            let mut v2 = copy_range(&v, 0, 6);
            v2.push('-');
            append_range(&mut v2, &v, 6, 12);
            proof {
                assert(v2@ =~= v@.subrange(0, 6) + seq!['-'] + v@.subrange(6, 12));
            }
            let s2 = string_from(&v2);
            out.push(s2);
        } else if v.len() >= 10 {
            let mid = v.len() / 2;
            let mut v1 = copy_range(&v, 0, mid);
            v1.push('-');
            append_range(&mut v1, &v, mid, v.len());
            proof {
                assert(v1@ =~= v@.subrange(0, v@.len() as int / 2) + seq!['-'] + v@.subrange(
                    v@.len() as int / 2,
                    v@.len() as int,
                ));
            }
            let s1 = string_from(&v1);
            out.push(s1);
            let mut v2 = copy_range(&v, 0, mid);
            v2.push(' ');
            append_range(&mut v2, &v, mid, v.len());
            proof {
                assert(v2@ =~= v@.subrange(0, v@.len() as int / 2) + seq![' '] + v@.subrange(
                    v@.len() as int / 2,
                    v@.len() as int,
                ));
            }
            let s2 = string_from(&v2);
            out.push(s2);
        }
        out
    }
}

} // verus!
