//! Detection of call-detail table columns: clock times, origination
//! locations and destination values, plus recognition of the table
//! header that announces a call-detail section.
//!
//! A time is one or two digits, a colon, two digits, optional
//! whitespace and `AM`/`PM`/`am`/`pm`, word-bounded. A location is a
//! capitalized phrase followed by a comma and a two-letter upper-case
//! code. Extraction returns times in order of appearance, then the
//! distinct origination values in lexicographic order, then the
//! distinct destination values in lexicographic order.

use vstd::prelude::*;

use crate::text::CharClass;
use crate::text::boundary_after;
use crate::text::boundary_before;
use crate::text::chars_eq;
use crate::text::chars_of;
use crate::text::copy_range;
use crate::text::digit_char;
use crate::text::find_run_end;
use crate::text::is_digit_char;
use crate::text::is_upper_char;
use crate::text::lit_at;
use crate::text::lit_ci_at;
use crate::text::match_lit;
use crate::text::match_lit_ci;
use crate::text::run_end;
use crate::text::string_from;
use crate::text::views_of;
use crate::text::word_char;

verus! {

/// One of the meridiem markers `AM`, `PM`, `am`, `pm` stands at `w`.
pub open spec fn meridiem_at(s: Seq<char>, w: int) -> bool {
    ||| lit_at(s, w, "AM"@)
    ||| lit_at(s, w, "PM"@)
    ||| lit_at(s, w, "am"@)
    ||| lit_at(s, w, "pm"@)
}

/// End of a clock-time occurrence at `i`: one or two digits (two
/// preferred), a colon, two digits, optional whitespace and a meridiem
/// marker, with word boundaries on both sides.
pub open spec fn time_at(s: Seq<char>, i: int) -> Option<int> {
    if !boundary_before(s, i) {
        None
    } else {
        let m = if 0 <= i && i + 2 < s.len() && is_digit_char(s[i]) && is_digit_char(s[i + 1])
            && s[i + 2] == ':' {
            Some(i + 3)
        } else if 0 <= i && i + 1 < s.len() && is_digit_char(s[i]) && s[i + 1] == ':' {
            Some(i + 2)
        } else {
            None
        };
        match m {
            Some(m) => if m + 2 <= s.len() && is_digit_char(s[m]) && is_digit_char(s[m + 1]) {
                let w = run_end(CharClass::Space, s, m + 2);
                if meridiem_at(s, w) && boundary_after(s, w + 2) {
                    Some(w + 2)
                } else {
                    None
                }
            } else {
                None
            },
            None => None,
        }
    }
}

/// End of a location occurrence at `i`: an upper-case letter, at least
/// one further letter or space, a comma, optional whitespace and two
/// upper-case letters, with word boundaries on both sides.
pub open spec fn loc_at(s: Seq<char>, i: int) -> Option<int> {
    if !(boundary_before(s, i) && 0 <= i < s.len() && is_upper_char(s[i])) {
        None
    } else {
        let r = run_end(CharClass::AlphaSpace, s, i + 1);
        if !(r > i + 1 && r < s.len() && s[r] == ',') {
            None
        } else {
            let w = run_end(CharClass::Space, s, r + 1);
            if w + 2 <= s.len() && is_upper_char(s[w]) && is_upper_char(s[w + 1])
                && boundary_after(s, w + 2) {
                Some(w + 2)
            } else {
                None
            }
        }
    }
}

/// End of a lower-case word location at `i`: an upper-case letter, at
/// least one lower-case letter, a comma, optional whitespace and two
/// upper-case letters, with word boundaries on both sides.
pub open spec fn lower_loc_at(s: Seq<char>, i: int) -> Option<int> {
    if !(boundary_before(s, i) && 0 <= i < s.len() && is_upper_char(s[i])) {
        None
    } else {
        let r = run_end(CharClass::LowerAlpha, s, i + 1);
        if !(r > i + 1 && r < s.len() && s[r] == ',') {
            None
        } else {
            let w = run_end(CharClass::Space, s, r + 1);
            if w + 2 <= s.len() && is_upper_char(s[w]) && is_upper_char(s[w + 1])
                && boundary_after(s, w + 2) {
                Some(w + 2)
            } else {
                None
            }
        }
    }
}

/// End of an `Incoming` marker at `i`: the literal word, a comma,
/// optional whitespace and two upper-case letters, word-bounded.
pub open spec fn incoming_at(s: Seq<char>, i: int) -> Option<int> {
    if !(boundary_before(s, i) && lit_at(s, i, "Incoming"@) && i + 8 < s.len() && s[i + 8]
        == ',') {
        None
    } else {
        let w = run_end(CharClass::Space, s, i + 9);
        if w + 2 <= s.len() && is_upper_char(s[w]) && is_upper_char(s[w + 1]) && boundary_after(
            s,
            w + 2,
        ) {
            Some(w + 2)
        } else {
            None
        }
    }
}

/// End of a destination occurrence at `i`: a location, a lower-case
/// word location, or an `Incoming` marker, tried in that order.
pub open spec fn dest_at(s: Seq<char>, i: int) -> Option<int> {
    match loc_at(s, i) {
        Some(e) => Some(e),
        None => match lower_loc_at(s, i) {
            Some(e) => Some(e),
            None => incoming_at(s, i),
        },
    }
}

/// End of a long lower-case token location at `i`: an upper-case
/// letter, at least three lower-case letters, further lower-case
/// letters or digits, a comma, optional whitespace and two upper-case
/// letters, word-bounded.
pub open spec fn token_loc_at(s: Seq<char>, i: int) -> Option<int> {
    if !(boundary_before(s, i) && 0 <= i < s.len() && is_upper_char(s[i])) {
        None
    } else {
        let r1 = run_end(CharClass::LowerAlpha, s, i + 1);
        if !(r1 >= i + 4) {
            None
        } else {
            let r2 = run_end(CharClass::LowerAlnum, s, r1);
            if !(0 <= r2 < s.len() && s[r2] == ',') {
                None
            } else {
                let w = run_end(CharClass::Space, s, r2 + 1);
                if w + 2 <= s.len() && is_upper_char(s[w]) && is_upper_char(s[w + 1])
                    && boundary_after(s, w + 2) {
                    Some(w + 2)
                } else {
                    None
                }
            }
        }
    }
}

/// End of a combined call-detail occurrence at `i`: a time, a location,
/// an `Incoming` marker, or a long lower-case token location, tried in
/// that order.
pub open spec fn combined_at(s: Seq<char>, i: int) -> Option<int> {
    match time_at(s, i) {
        Some(e) => Some(e),
        None => match loc_at(s, i) {
            Some(e) => Some(e),
            None => match incoming_at(s, i) {
                Some(e) => Some(e),
                None => token_loc_at(s, i),
            },
        },
    }
}

/// All time spans from position `i` on.
pub open spec fn time_spans_from(s: Seq<char>, i: int) -> Seq<(int, int)>
    decreases s.len() - i,
{
    if !(0 <= i < s.len()) {
        Seq::empty()
    } else {
        match time_at(s, i) {
            Some(e) => if i < e <= s.len() {
                seq![(i, e)] + time_spans_from(s, e)
            } else {
                time_spans_from(s, i + 1)
            },
            None => time_spans_from(s, i + 1),
        }
    }
}

/// All location spans from position `i` on.
pub open spec fn loc_spans_from(s: Seq<char>, i: int) -> Seq<(int, int)>
    decreases s.len() - i,
{
    if !(0 <= i < s.len()) {
        Seq::empty()
    } else {
        match loc_at(s, i) {
            Some(e) => if i < e <= s.len() {
                seq![(i, e)] + loc_spans_from(s, e)
            } else {
                loc_spans_from(s, i + 1)
            },
            None => loc_spans_from(s, i + 1),
        }
    }
}

/// All destination spans from position `i` on.
pub open spec fn dest_spans_from(s: Seq<char>, i: int) -> Seq<(int, int)>
    decreases s.len() - i,
{
    if !(0 <= i < s.len()) {
        Seq::empty()
    } else {
        match dest_at(s, i) {
            Some(e) => if i < e <= s.len() {
                seq![(i, e)] + dest_spans_from(s, e)
            } else {
                dest_spans_from(s, i + 1)
            },
            None => dest_spans_from(s, i + 1),
        }
    }
}

/// All combined call-detail spans from position `i` on.
pub open spec fn combined_spans_from(s: Seq<char>, i: int) -> Seq<(int, int)>
    decreases s.len() - i,
{
    if !(0 <= i < s.len()) {
        Seq::empty()
    } else {
        match combined_at(s, i) {
            Some(e) => if i < e <= s.len() {
                seq![(i, e)] + combined_spans_from(s, e)
            } else {
                combined_spans_from(s, i + 1)
            },
            None => combined_spans_from(s, i + 1),
        }
    }
}

/// The substrings of `s` under a sequence of spans.
pub open spec fn span_values(s: Seq<char>, spans: Seq<(int, int)>) -> Seq<Seq<char>> {
    spans.map_values(|sp: (int, int)| s.subrange(sp.0, sp.1))
}

/// The time values of `s`, in order of appearance.
pub open spec fn time_values(s: Seq<char>) -> Seq<Seq<char>> {
    span_values(s, time_spans_from(s, 0))
}

/// The origination values of `s`, in order of appearance.
pub open spec fn orig_values(s: Seq<char>) -> Seq<Seq<char>> {
    span_values(s, loc_spans_from(s, 0))
}

/// The destination values of `s`, in order of appearance.
pub open spec fn dest_values(s: Seq<char>) -> Seq<Seq<char>> {
    span_values(s, dest_spans_from(s, 0))
}

/// Lexicographic order on character sequences, by code point.
pub open spec fn seq_lt(a: Seq<char>, b: Seq<char>) -> bool
    decreases a.len(),
{
    if b.len() == 0 {
        false
    } else if a.len() == 0 {
        true
    } else if a[0] < b[0] {
        true
    } else if a[0] == b[0] {
        seq_lt(a.drop_first(), b.drop_first())
    } else {
        false
    }
}

/// `x` inserted into the sorted, duplicate-free sequence `q`, keeping
/// it sorted and duplicate-free.
pub open spec fn insert_sorted(x: Seq<char>, q: Seq<Seq<char>>) -> Seq<Seq<char>>
    decreases q.len(),
{
    if q.len() == 0 {
        seq![x]
    } else if seq_lt(x, q[0]) {
        seq![x] + q
    } else if x == q[0] {
        q
    } else {
        seq![q[0]] + insert_sorted(x, q.drop_first())
    }
}

/// The values of `vs` in lexicographic order, duplicates removed.
pub open spec fn sort_dedup(vs: Seq<Seq<char>>) -> Seq<Seq<char>>
    decreases vs.len(),
{
    if vs.len() == 0 {
        Seq::empty()
    } else {
        insert_sorted(vs[0], sort_dedup(vs.drop_first()))
    }
}

/// A sequence of values in strictly ascending lexicographic order;
/// strictness makes it duplicate-free as well.
pub open spec fn sorted_distinct(q: Seq<Seq<char>>) -> bool {
    forall|i: int| 0 <= i < q.len() - 1 ==> seq_lt(#[trigger] q[i], q[i + 1])
}

/// Lexicographic order is connex: two values compare one way or the
/// other, or are equal.
proof fn lemma_seq_lt_connex(a: Seq<char>, b: Seq<char>)
    ensures
        seq_lt(a, b) || seq_lt(b, a) || a == b,
    decreases a.len(),
{
    if b.len() == 0 {
        if a.len() == 0 {
            assert(a =~= b);
        }
    } else if a.len() == 0 {
    } else if a[0] == b[0] {
        lemma_seq_lt_connex(a.drop_first(), b.drop_first());
        if !seq_lt(a, b) && !seq_lt(b, a) {
            assert(a.drop_first() == b.drop_first());
            assert forall|i: int| 0 <= i < a.len() implies a[i] == b[i] by {
                if i > 0 {
                    assert(a.drop_first()[i - 1] == b.drop_first()[i - 1]);
                }
            }
            assert(a =~= b);
        }
    }
}

/// Lexicographic order is transitive.
proof fn lemma_seq_lt_trans(a: Seq<char>, b: Seq<char>, c: Seq<char>)
    requires
        seq_lt(a, b),
        seq_lt(b, c),
    ensures
        seq_lt(a, c),
    decreases a.len() + b.len() + c.len(),
{
    if a.len() == 0 {
    } else {
        if b.len() > 0 && c.len() > 0 {
            if a[0] == b[0] && b[0] == c[0] {
                lemma_seq_lt_trans(a.drop_first(), b.drop_first(), c.drop_first());
            }
        }
    }
}

/// The inserted value is present after insertion.
proof fn lemma_insert_contains_x(x: Seq<char>, q: Seq<Seq<char>>)
    ensures
        insert_sorted(x, q).contains(x),
    decreases q.len(),
{
    let r = insert_sorted(x, q);
    if q.len() == 0 {
        assert(r[0] == x);
    } else if seq_lt(x, q[0]) {
        assert(r[0] == x);
    } else if x == q[0] {
        assert(r[0] == x);
    } else {
        lemma_insert_contains_x(x, q.drop_first());
        let rt = insert_sorted(x, q.drop_first());
        let j = choose|j: int| 0 <= j < rt.len() && rt[j] == x;
        assert(r[j + 1] == x);
    }
}

/// Every value already present is still present after insertion.
proof fn lemma_insert_keeps(x: Seq<char>, q: Seq<Seq<char>>, y: Seq<char>)
    requires
        q.contains(y),
    ensures
        insert_sorted(x, q).contains(y),
    decreases q.len(),
{
    let r = insert_sorted(x, q);
    let i = choose|i: int| 0 <= i < q.len() && q[i] == y;
    if seq_lt(x, q[0]) {
        assert(r[i + 1] == y);
    } else if x == q[0] {
        assert(r[i] == y);
    } else {
        if i == 0 {
            assert(r[0] == y);
        } else {
            let tail = q.drop_first();
            assert(tail[i - 1] == y);
            assert(tail.contains(y));
            lemma_insert_keeps(x, tail, y);
            let rt = insert_sorted(x, tail);
            let j = choose|j: int| 0 <= j < rt.len() && rt[j] == y;
            assert(r[j + 1] == y);
        }
    }
}

/// Inserting keeps the sequence strictly sorted, and its values are
/// those of the input together with the inserted one.
proof fn lemma_insert_sorted_props(x: Seq<char>, q: Seq<Seq<char>>)
    requires
        sorted_distinct(q),
    ensures
        sorted_distinct(insert_sorted(x, q)),
        forall|y: Seq<char>|
            insert_sorted(x, q).contains(y) <==> (q.contains(y) || y == x),
    decreases q.len(),
{
    let r = insert_sorted(x, q);
    if q.len() == 0 {
        assert forall|y: Seq<char>| r.contains(y) implies (q.contains(y) || y == x) by {
            let i = choose|i: int| 0 <= i < r.len() && r[i] == y;
        }
        assert(r[0] == x);
        assert(r.contains(x));
    } else if seq_lt(x, q[0]) {
        assert forall|i: int| 0 <= i < r.len() - 1 implies seq_lt(#[trigger] r[i], r[i + 1]) by {
            if i == 0 {
                assert(r[0] == x && r[1] == q[0]);
            } else {
                assert(r[i] == q[i - 1] && r[i + 1] == q[i]);
            }
        }
        assert forall|y: Seq<char>| r.contains(y) implies (q.contains(y) || y == x) by {
            let i = choose|i: int| 0 <= i < r.len() && r[i] == y;
            if i > 0 {
                assert(q[i - 1] == y);
            }
        }
        assert forall|y: Seq<char>| q.contains(y) || y == x implies r.contains(y) by {
            if y == x {
                assert(r[0] == y);
            } else {
                let i = choose|i: int| 0 <= i < q.len() && q[i] == y;
                assert(r[i + 1] == y);
            }
        }
    } else if x == q[0] {
        assert(r == q);
        assert(r.contains(x)) by {
            assert(r[0] == x);
        }
    } else {
        let tail = q.drop_first();
        assert forall|i: int| 0 <= i < tail.len() - 1 implies seq_lt(
            #[trigger] tail[i],
            tail[i + 1],
        ) by {
            assert(tail[i] == q[i + 1] && tail[i + 1] == q[i + 2]);
        }
        lemma_insert_sorted_props(x, tail);
        let rt = insert_sorted(x, tail);
        assert(r == seq![q[0]] + rt);
        lemma_seq_lt_connex(x, q[0]);
        assert(seq_lt(q[0], x));
        assert forall|i: int| 0 <= i < r.len() - 1 implies seq_lt(#[trigger] r[i], r[i + 1]) by {
            if i == 0 {
                assert(r[0] == q[0] && r[1] == rt[0]);
                assert(rt.contains(rt[0]));
                if rt[0] == x {
                } else {
                    assert(tail.contains(rt[0]));
                    let j = choose|j: int| 0 <= j < tail.len() && tail[j] == rt[0];
                    assert(tail[j] == q[j + 1]);
                    if j == 0 {
                        assert(seq_lt(q[0], q[1]));
                    } else {
                        assert(seq_lt(q[0], q[1]));
                        lemma_sorted_reach(q, 1, j + 1);
                        lemma_seq_lt_trans(q[0], q[1], q[j + 1]);
                    }
                }
            } else {
                assert(r[i] == rt[i - 1] && r[i + 1] == rt[i]);
            }
        }
        assert forall|y: Seq<char>| r.contains(y) implies (q.contains(y) || y == x) by {
            let i = choose|i: int| 0 <= i < r.len() && r[i] == y;
            if i == 0 {
                assert(q[0] == y);
            } else {
                assert(rt[i - 1] == y);
                assert(rt.contains(y));
                if y != x {
                    assert(tail.contains(y));
                    let j = choose|j: int| 0 <= j < tail.len() && tail[j] == y;
                    assert(q[j + 1] == y);
                }
            }
        }
        assert forall|y: Seq<char>| q.contains(y) || y == x implies r.contains(y) by {
            if y == x {
                lemma_insert_contains_x(x, tail);
                let j = choose|j: int| 0 <= j < rt.len() && rt[j] == y;
                assert(r[j + 1] == y);
            } else {
                let i = choose|i: int| 0 <= i < q.len() && q[i] == y;
                if i == 0 {
                    assert(r[0] == y);
                } else {
                    assert(tail[i - 1] == y);
                    assert(tail.contains(y));
                    lemma_insert_keeps(x, tail, y);
                    let j = choose|j: int| 0 <= j < rt.len() && rt[j] == y;
                    assert(r[j + 1] == y);
                }
            }
        }
    }
}

/// In a strictly sorted sequence every later value is greater.
proof fn lemma_sorted_reach(q: Seq<Seq<char>>, i: int, j: int)
    requires
        sorted_distinct(q),
        0 <= i <= j < q.len(),
    ensures
        i < j ==> seq_lt(q[i], q[j]),
    decreases j - i,
{
    if i + 1 < j {
        lemma_sorted_reach(q, i + 1, j);
        lemma_seq_lt_trans(q[i], q[i + 1], q[j]);
    }
}

/// The ordering law of extraction: the sorted, deduplicated value list
/// is strictly ascending and holds exactly the values that were
/// extracted, no more and no fewer.
pub proof fn lemma_sort_dedup_props(vs: Seq<Seq<char>>)
    ensures
        sorted_distinct(sort_dedup(vs)),
        forall|y: Seq<char>| sort_dedup(vs).contains(y) <==> vs.contains(y),
    decreases vs.len(),
{
    if vs.len() == 0 {
        assert forall|y: Seq<char>| sort_dedup(vs).contains(y) implies vs.contains(y) by {
            let i = choose|i: int| 0 <= i < sort_dedup(vs).len() && sort_dedup(vs)[i] == y;
        }
    } else {
        let tail = vs.drop_first();
        lemma_sort_dedup_props(tail);
        lemma_insert_sorted_props(vs[0], sort_dedup(tail));
        assert forall|y: Seq<char>| sort_dedup(vs).contains(y) implies vs.contains(y) by {
            if y == vs[0] {
                assert(vs.contains(y)) by {
                    assert(vs[0] == y);
                }
            } else {
                assert(tail.contains(y));
                let j = choose|j: int| 0 <= j < tail.len() && tail[j] == y;
                assert(vs[j + 1] == y);
            }
        }
        assert forall|y: Seq<char>| vs.contains(y) implies sort_dedup(vs).contains(y) by {
            let i = choose|i: int| 0 <= i < vs.len() && vs[i] == y;
            if i == 0 {
                lemma_insert_contains_x(vs[0], sort_dedup(tail));
            } else {
                assert(tail[i - 1] == y);
                assert(tail.contains(y));
                assert(sort_dedup(tail).contains(y));
                lemma_insert_keeps(vs[0], sort_dedup(tail), y);
            }
        }
    }
}

/// The call-detail table header (`Date`, `Time`, `Number`,
/// `Origination`, `Destination`, case-insensitively, separated by
/// whitespace) stands at `i`.
pub open spec fn header_at(s: Seq<char>, i: int) -> bool {
    &&& lit_ci_at(s, i, "date"@)
    &&& {
        let w1 = run_end(CharClass::Space, s, i + 4);
        &&& w1 > i + 4
        &&& lit_ci_at(s, w1, "time"@)
        &&& {
            let w2 = run_end(CharClass::Space, s, w1 + 4);
            &&& w2 > w1 + 4
            &&& lit_ci_at(s, w2, "number"@)
            &&& {
                let w3 = run_end(CharClass::Space, s, w2 + 6);
                &&& w3 > w2 + 6
                &&& lit_ci_at(s, w3, "origination"@)
                &&& {
                    let w4 = run_end(CharClass::Space, s, w3 + 11);
                    &&& w4 > w3 + 11
                    &&& lit_ci_at(s, w4, "destination"@)
                }
            }
        }
    }
}

/// The header stands somewhere at or after position `i`.
pub open spec fn header_found_from(s: Seq<char>, i: int) -> bool
    decreases s.len() - i,
{
    if !(0 <= i < s.len()) {
        false
    } else {
        header_at(s, i) || header_found_from(s, i + 1)
    }
}

/// Exec test for [`meridiem_at`], also yielding that the marker fits.
fn check_meridiem(v: &Vec<char>, w: usize) -> (b: bool)
    ensures
        b == meridiem_at(v@, w as int),
        b ==> w + 2 <= v@.len(),
{
    proof {
        reveal_strlit("AM");
        reveal_strlit("PM");
        reveal_strlit("am");
        reveal_strlit("pm");
    }
    match_lit(v, w, "AM") || match_lit(v, w, "PM") || match_lit(v, w, "am") || match_lit(v, w, "pm")
}

/// Exec computation of [`time_at`].
fn find_time_at(v: &Vec<char>, i: usize) -> (r: Option<usize>)
    requires
        i <= v@.len(),
    ensures
        match r {
            Some(e) => time_at(v@, i as int) == Some(e as int) && i < e <= v@.len(),
            None => time_at(v@, i as int) is None,
        },
{
    if !(i == 0 || !word_char(v[i - 1])) {
        return None;
    }
    let m: usize = if v.len() - i > 2 && digit_char(v[i]) && digit_char(v[i + 1]) && v[i + 2]
        == ':' {
        i + 3
    } else if v.len() - i > 1 && digit_char(v[i]) && v[i + 1] == ':' {
        i + 2
    } else {
        return None;
    };
    if !(v.len() - m >= 2 && digit_char(v[m]) && digit_char(v[m + 1])) {
        return None;
    }
    let w = find_run_end(CharClass::Space, v, m + 2);
    if check_meridiem(v, w) && (w + 2 == v.len() || !word_char(v[w + 2])) {
        Some(w + 2)
    } else {
        None
    }
}

/// Exec computation of [`loc_at`].
fn find_loc_at(v: &Vec<char>, i: usize) -> (r: Option<usize>)
    requires
        i <= v@.len(),
    ensures
        match r {
            Some(e) => loc_at(v@, i as int) == Some(e as int) && i < e <= v@.len(),
            None => loc_at(v@, i as int) is None,
        },
{
    if !((i == 0 || !word_char(v[i - 1])) && i < v.len() && 'A' <= v[i] && v[i] <= 'Z') {
        return None;
    }
    let r = find_run_end(CharClass::AlphaSpace, v, i + 1);
    if !(r > i + 1 && r < v.len() && v[r] == ',') {
        return None;
    }
    let w = find_run_end(CharClass::Space, v, r + 1);
    if v.len() - w >= 2 && ('A' <= v[w] && v[w] <= 'Z') && ('A' <= v[w + 1] && v[w + 1] <= 'Z')
        && (w + 2 == v.len() || !word_char(v[w + 2])) {
        Some(w + 2)
    } else {
        None
    }
}

/// Exec computation of [`lower_loc_at`].
fn find_lower_loc_at(v: &Vec<char>, i: usize) -> (r: Option<usize>)
    requires
        i <= v@.len(),
    ensures
        match r {
            Some(e) => lower_loc_at(v@, i as int) == Some(e as int) && i < e <= v@.len(),
            None => lower_loc_at(v@, i as int) is None,
        },
{
    if !((i == 0 || !word_char(v[i - 1])) && i < v.len() && 'A' <= v[i] && v[i] <= 'Z') {
        return None;
    }
    let r = find_run_end(CharClass::LowerAlpha, v, i + 1);
    if !(r > i + 1 && r < v.len() && v[r] == ',') {
        return None;
    }
    let w = find_run_end(CharClass::Space, v, r + 1);
    if v.len() - w >= 2 && ('A' <= v[w] && v[w] <= 'Z') && ('A' <= v[w + 1] && v[w + 1] <= 'Z')
        && (w + 2 == v.len() || !word_char(v[w + 2])) {
        Some(w + 2)
    } else {
        None
    }
}

/// Exec computation of [`incoming_at`].
fn find_incoming_at(v: &Vec<char>, i: usize) -> (r: Option<usize>)
    requires
        i <= v@.len(),
    ensures
        match r {
            Some(e) => incoming_at(v@, i as int) == Some(e as int) && i < e <= v@.len(),
            None => incoming_at(v@, i as int) is None,
        },
{
    proof {
        reveal_strlit("Incoming");
    }
    if !((i == 0 || !word_char(v[i - 1])) && match_lit(v, i, "Incoming")) {
        return None;
    }
    if !(v.len() - i > 8 && v[i + 8] == ',') {
        return None;
    }
    let w = find_run_end(CharClass::Space, v, i + 9);
    if v.len() - w >= 2 && ('A' <= v[w] && v[w] <= 'Z') && ('A' <= v[w + 1] && v[w + 1] <= 'Z')
        && (w + 2 == v.len() || !word_char(v[w + 2])) {
        Some(w + 2)
    } else {
        None
    }
}

/// Exec computation of [`token_loc_at`].
fn find_token_loc_at(v: &Vec<char>, i: usize) -> (r: Option<usize>)
    requires
        i <= v@.len(),
    ensures
        match r {
            Some(e) => token_loc_at(v@, i as int) == Some(e as int) && i < e <= v@.len(),
            None => token_loc_at(v@, i as int) is None,
        },
{
    if !((i == 0 || !word_char(v[i - 1])) && i < v.len() && 'A' <= v[i] && v[i] <= 'Z') {
        return None;
    }
    let r1 = find_run_end(CharClass::LowerAlpha, v, i + 1);
    if !(r1 - i >= 4) {
        return None;
    }
    let r2 = find_run_end(CharClass::LowerAlnum, v, r1);
    if !(r2 < v.len() && v[r2] == ',') {
        return None;
    }
    let w = find_run_end(CharClass::Space, v, r2 + 1);
    if v.len() - w >= 2 && ('A' <= v[w] && v[w] <= 'Z') && ('A' <= v[w + 1] && v[w + 1] <= 'Z')
        && (w + 2 == v.len() || !word_char(v[w + 2])) {
        Some(w + 2)
    } else {
        None
    }
}

/// Exec computation of [`dest_at`].
fn find_dest_at(v: &Vec<char>, i: usize) -> (r: Option<usize>)
    requires
        i <= v@.len(),
    ensures
        match r {
            Some(e) => dest_at(v@, i as int) == Some(e as int) && i < e <= v@.len(),
            None => dest_at(v@, i as int) is None,
        },
{
    match find_loc_at(v, i) {
        Some(e) => Some(e),
        None => match find_lower_loc_at(v, i) {
            Some(e) => Some(e),
            None => find_incoming_at(v, i),
        },
    }
}

/// Exec computation of [`combined_at`].
fn find_combined_at(v: &Vec<char>, i: usize) -> (r: Option<usize>)
    requires
        i <= v@.len(),
    ensures
        match r {
            Some(e) => combined_at(v@, i as int) == Some(e as int) && i < e <= v@.len(),
            None => combined_at(v@, i as int) is None,
        },
{
    match find_time_at(v, i) {
        Some(e) => Some(e),
        None => match find_loc_at(v, i) {
            Some(e) => Some(e),
            None => match find_incoming_at(v, i) {
                Some(e) => Some(e),
                None => find_token_loc_at(v, i),
            },
        },
    }
}

/// A vector of spans agrees with a specified span sequence and stays
/// inside a text of length `n`.
pub open spec fn spans_match(sp: Seq<(usize, usize)>, gs: Seq<(int, int)>, n: int) -> bool {
    &&& sp.len() == gs.len()
    &&& forall|k: int|
        0 <= k < sp.len() ==> (#[trigger] sp[k]).0 == gs[k].0 && sp[k].1 == gs[k].1 && 0
            <= gs[k].0 <= gs[k].1 <= n
}

/// Exec scan of [`time_spans_from`] over the whole text.
fn scan_time_spans(v: &Vec<char>) -> (r: Vec<(usize, usize)>)
    ensures
        spans_match(r@, time_spans_from(v@, 0), v@.len() as int),
{
    let mut out: Vec<(usize, usize)> = Vec::new();
    let mut i: usize = 0;
    while i < v.len()
        invariant
            0 <= i <= v@.len(),
            time_spans_from(v@, 0) == spans_seq(out@) + time_spans_from(v@, i as int),
            forall|k: int| 0 <= k < out@.len() ==> 0 <= (#[trigger] out@[k]).0 <= out@[k].1 <= v@.len(),
        decreases v@.len() - i,
    {
        match find_time_at(v, i) {
            Some(e) => {
                let ghost out0 = out@;
                out.push((i, e));
                proof {
                    assert(spans_seq(out@) =~= spans_seq(out0).push((i as int, e as int)));
                    assert(spans_seq(out@) + time_spans_from(v@, e as int) =~= spans_seq(out0)
                        + time_spans_from(v@, i as int));
                }
                i = e;
            },
            None => {
                i = i + 1;
            },
        }
    }
    proof {
        assert(spans_seq(out@) + time_spans_from(v@, i as int) =~= spans_seq(out@));
    }
    out
}

/// Exec scan of [`loc_spans_from`] over the whole text.
fn scan_loc_spans(v: &Vec<char>) -> (r: Vec<(usize, usize)>)
    ensures
        spans_match(r@, loc_spans_from(v@, 0), v@.len() as int),
{
    let mut out: Vec<(usize, usize)> = Vec::new();
    let mut i: usize = 0;
    while i < v.len()
        invariant
            0 <= i <= v@.len(),
            loc_spans_from(v@, 0) == spans_seq(out@) + loc_spans_from(v@, i as int),
            forall|k: int| 0 <= k < out@.len() ==> 0 <= (#[trigger] out@[k]).0 <= out@[k].1 <= v@.len(),
        decreases v@.len() - i,
    {
        match find_loc_at(v, i) {
            Some(e) => {
                let ghost out0 = out@;
                out.push((i, e));
                proof {
                    assert(spans_seq(out@) =~= spans_seq(out0).push((i as int, e as int)));
                    assert(spans_seq(out@) + loc_spans_from(v@, e as int) =~= spans_seq(out0)
                        + loc_spans_from(v@, i as int));
                }
                i = e;
            },
            None => {
                i = i + 1;
            },
        }
    }
    proof {
        assert(spans_seq(out@) + loc_spans_from(v@, i as int) =~= spans_seq(out@));
    }
    out
}

/// Exec scan of [`dest_spans_from`] over the whole text.
fn scan_dest_spans(v: &Vec<char>) -> (r: Vec<(usize, usize)>)
    ensures
        spans_match(r@, dest_spans_from(v@, 0), v@.len() as int),
{
    let mut out: Vec<(usize, usize)> = Vec::new();
    let mut i: usize = 0;
    while i < v.len()
        invariant
            0 <= i <= v@.len(),
            dest_spans_from(v@, 0) == spans_seq(out@) + dest_spans_from(v@, i as int),
            forall|k: int| 0 <= k < out@.len() ==> 0 <= (#[trigger] out@[k]).0 <= out@[k].1 <= v@.len(),
        decreases v@.len() - i,
    {
        match find_dest_at(v, i) {
            Some(e) => {
                let ghost out0 = out@;
                out.push((i, e));
                proof {
                    assert(spans_seq(out@) =~= spans_seq(out0).push((i as int, e as int)));
                    assert(spans_seq(out@) + dest_spans_from(v@, e as int) =~= spans_seq(out0)
                        + dest_spans_from(v@, i as int));
                }
                i = e;
            },
            None => {
                i = i + 1;
            },
        }
    }
    proof {
        assert(spans_seq(out@) + dest_spans_from(v@, i as int) =~= spans_seq(out@));
    }
    out
}

/// Exec scan of [`combined_spans_from`] over the whole text.
fn scan_combined_spans(v: &Vec<char>) -> (r: Vec<(usize, usize)>)
    ensures
        spans_match(r@, combined_spans_from(v@, 0), v@.len() as int),
{
    let mut out: Vec<(usize, usize)> = Vec::new();
    let mut i: usize = 0;
    while i < v.len()
        invariant
            0 <= i <= v@.len(),
            combined_spans_from(v@, 0) == spans_seq(out@) + combined_spans_from(v@, i as int),
            forall|k: int| 0 <= k < out@.len() ==> 0 <= (#[trigger] out@[k]).0 <= out@[k].1 <= v@.len(),
        decreases v@.len() - i,
    {
        match find_combined_at(v, i) {
            Some(e) => {
                let ghost out0 = out@;
                out.push((i, e));
                proof {
                    assert(spans_seq(out@) =~= spans_seq(out0).push((i as int, e as int)));
                    assert(spans_seq(out@) + combined_spans_from(v@, e as int) =~= spans_seq(out0)
                        + combined_spans_from(v@, i as int));
                }
                i = e;
            },
            None => {
                i = i + 1;
            },
        }
    }
    proof {
        assert(spans_seq(out@) + combined_spans_from(v@, i as int) =~= spans_seq(out@));
    }
    out
}

/// The substrings of `v` under a vector of spans, as strings.
fn strings_of_spans(v: &Vec<char>, sp: &Vec<(usize, usize)>) -> (r: Vec<String>)
    requires
        forall|k: int| 0 <= k < sp@.len() ==> 0 <= (#[trigger] sp@[k]).0 <= sp@[k].1 <= v@.len(),
    ensures
        r@.len() == sp@.len(),
        forall|k: int|
            0 <= k < r@.len() ==> r@[k]@ == v@.subrange(sp@[k].0 as int, sp@[k].1 as int),
{
    let mut r: Vec<String> = Vec::new();
    let mut k: usize = 0;
    while k < sp.len()
        invariant
            0 <= k <= sp@.len(),
            forall|j: int| 0 <= j < sp@.len() ==> 0 <= (#[trigger] sp@[j]).0 <= sp@[j].1 <= v@.len(),
            r@.len() == k,
            forall|j: int|
                0 <= j < k ==> r@[j]@ == v@.subrange(sp@[j].0 as int, sp@[j].1 as int),
        decreases sp@.len() - k,
    {
        let (a, b) = sp[k];
        let piece = copy_range(v, a, b);
        let s = string_from(&piece);
        r.push(s);
        k = k + 1;
    }
    r
}

/// The substrings of `v` under a vector of spans, as character vectors.
fn values_of_spans(v: &Vec<char>, sp: &Vec<(usize, usize)>) -> (r: Vec<Vec<char>>)
    requires
        forall|k: int| 0 <= k < sp@.len() ==> 0 <= (#[trigger] sp@[k]).0 <= sp@[k].1 <= v@.len(),
    ensures
        r@.len() == sp@.len(),
        forall|k: int|
            0 <= k < r@.len() ==> r@[k]@ == v@.subrange(sp@[k].0 as int, sp@[k].1 as int),
{
    let mut r: Vec<Vec<char>> = Vec::new();
    let mut k: usize = 0;
    while k < sp.len()
        invariant
            0 <= k <= sp@.len(),
            forall|j: int| 0 <= j < sp@.len() ==> 0 <= (#[trigger] sp@[j]).0 <= sp@[j].1 <= v@.len(),
            r@.len() == k,
            forall|j: int|
                0 <= j < k ==> r@[j]@ == v@.subrange(sp@[j].0 as int, sp@[j].1 as int),
        decreases sp@.len() - k,
    {
        let (a, b) = sp[k];
        let piece = copy_range(v, a, b);
        r.push(piece);
        k = k + 1;
    }
    r
}

/// A vector of usize spans as a sequence of int spans.
pub open spec fn spans_seq(sp: Seq<(usize, usize)>) -> Seq<(int, int)> {
    sp.map_values(|p: (usize, usize)| (p.0 as int, p.1 as int))
}

/// Lexicographic comparison is settled by the first differing position.
proof fn lemma_seq_lt_skip(a: Seq<char>, b: Seq<char>, k: int)
    requires
        0 <= k <= a.len(),
        k <= b.len(),
        forall|j: int| 0 <= j < k ==> a[j] == b[j],
    ensures
        seq_lt(a, b) == seq_lt(a.skip(k), b.skip(k)),
    decreases k,
{
    if k > 0 {
        assert(a.skip(0) =~= a);
        assert(b.skip(0) =~= b);
        assert forall|j: int| 0 <= j < k - 1 implies a.drop_first()[j] == b.drop_first()[j] by {
            assert(a.drop_first()[j] == a[j + 1]);
            assert(b.drop_first()[j] == b[j + 1]);
        }
        lemma_seq_lt_skip(a.drop_first(), b.drop_first(), k - 1);
        assert(a.drop_first().skip(k - 1) =~= a.skip(k));
        assert(b.drop_first().skip(k - 1) =~= b.skip(k));
        assert(a[0] == b[0]);
        assert(seq_lt(a, b) == seq_lt(a.drop_first(), b.drop_first()));
    } else {
        assert(a.skip(0) =~= a);
        assert(b.skip(0) =~= b);
    }
}

/// Exec lexicographic comparison, by code point.
pub fn chars_lt(a: &Vec<char>, b: &Vec<char>) -> (r: bool)
    ensures
        r == seq_lt(a@, b@),
{
    let n: usize = if a.len() < b.len() {
        a.len()
    } else {
        b.len()
    };
    let mut k: usize = 0;
    while k < n
        invariant
            0 <= k <= n,
            n <= a@.len(),
            n <= b@.len(),
            n == if a@.len() < b@.len() {
                a@.len()
            } else {
                b@.len()
            },
            forall|j: int| 0 <= j < k ==> a@[j] == b@[j],
        decreases n - k,
    {
        if a[k] != b[k] {
            let lt = a[k] < b[k];
            proof {
                lemma_seq_lt_skip(a@, b@, k as int);
                assert(a@.skip(k as int)[0] == a@[k as int]);
                assert(b@.skip(k as int)[0] == b@[k as int]);
            }
            return lt;
        }
        k = k + 1;
    }
    proof {
        lemma_seq_lt_skip(a@, b@, n as int);
        if a@.len() < b@.len() {
            assert(a@.skip(n as int).len() == 0);
            assert(b@.skip(n as int).len() > 0);
        } else {
            assert(b@.skip(n as int).len() == 0);
        }
    }
    a.len() < b.len()
}

/// Exec computation of [`insert_sorted`].
fn insert_sorted_exec(x: Vec<char>, q: Vec<Vec<char>>) -> (r: Vec<Vec<char>>)
    ensures
        views_of(r@) == insert_sorted(x@, views_of(q@)),
    decreases q@.len(),
{
    let ghost q0 = q@;
    let mut q = q;
    if q.len() == 0 {
        let mut r: Vec<Vec<char>> = Vec::new();
        r.push(x);
        proof {
            assert(views_of(r@) =~= insert_sorted(x@, views_of(q0)));
        }
        r
    } else if chars_lt(&x, &q[0]) {
        proof {
            assert(views_of(q0)[0] == q0[0]@);
        }
        q.insert(0, x);
        proof {
            assert(views_of(q@) =~= seq![x@] + views_of(q0));
        }
        q
    } else if chars_eq(&x, &q[0]) {
        proof {
            assert(views_of(q0)[0] == q0[0]@);
        }
        q
    } else {
        proof {
            assert(views_of(q0)[0] == q0[0]@);
        }
        let h = q.remove(0);
        proof {
            assert(views_of(q@) =~= views_of(q0).drop_first());
        }
        let mut r = insert_sorted_exec(x, q);
        let ghost r0 = r@;
        r.insert(0, h);
        proof {
            assert(views_of(r@) =~= seq![h@] + views_of(r0));
            assert(views_of(r@) =~= insert_sorted(x@, views_of(q0)));
        }
        r
    }
}

/// Exec computation of [`sort_dedup`].
fn sort_dedup_exec(vs: Vec<Vec<char>>) -> (r: Vec<Vec<char>>)
    ensures
        views_of(r@) == sort_dedup(views_of(vs@)),
    decreases vs@.len(),
{
    let ghost v0 = vs@;
    let mut vs = vs;
    if vs.len() == 0 {
        let r: Vec<Vec<char>> = Vec::new();
        proof {
            assert(views_of(r@) =~= sort_dedup(views_of(v0)));
        }
        r
    } else {
        proof {
            assert(views_of(v0)[0] == v0[0]@);
        }
        let h = vs.remove(0);
        proof {
            assert(views_of(vs@) =~= views_of(v0).drop_first());
        }
        let rest = sort_dedup_exec(vs);
        let r = insert_sorted_exec(h, rest);
        proof {
            assert(views_of(r@) =~= sort_dedup(views_of(v0)));
        }
        r
    }
}

/// Exec test for [`header_at`].
fn check_header_at(v: &Vec<char>, i: usize) -> (b: bool)
    requires
        i <= v@.len(),
    ensures
        b == header_at(v@, i as int),
{
    proof {
        crate::text::lemma_vec_len_bound(v);
        reveal_strlit("date");
        reveal_strlit("time");
        reveal_strlit("number");
        reveal_strlit("origination");
        reveal_strlit("destination");
    }
    if !match_lit_ci(v, i, "date") {
        return false;
    }
    let w1 = find_run_end(CharClass::Space, v, i + 4);
    if !(w1 > i + 4 && match_lit_ci(v, w1, "time")) {
        return false;
    }
    let w2 = find_run_end(CharClass::Space, v, w1 + 4);
    if !(w2 > w1 + 4 && match_lit_ci(v, w2, "number")) {
        return false;
    }
    let w3 = find_run_end(CharClass::Space, v, w2 + 6);
    if !(w3 > w2 + 6 && match_lit_ci(v, w3, "origination")) {
        return false;
    }
    let w4 = find_run_end(CharClass::Space, v, w3 + 11);
    w4 > w3 + 11 && match_lit_ci(v, w4, "destination")
}

/// Matcher for call-detail table columns: times, originations and
/// destinations.
pub struct VerizonCallDetailsMatcher {
}

impl VerizonCallDetailsMatcher {
    /// Creates a new call details matcher.
    pub fn new() -> (r: Self) {
        VerizonCallDetailsMatcher {  }
    }

    /// Extracts every time value from `text`, in order of appearance.
    pub fn extract_times(&self, text: &str) -> (r: Vec<String>)
        ensures
            r@.len() == time_values(text@).len(),
            forall|k: int| 0 <= k < r@.len() ==> r@[k]@ == time_values(text@)[k],
    {
        let v = chars_of(text);
        let sp = scan_time_spans(&v);
        let r = strings_of_spans(&v, &sp);
        proof {
            assert forall|k: int| 0 <= k < r@.len() implies r@[k]@ == time_values(v@)[k] by {
                assert(time_spans_from(v@, 0)[k] == (sp@[k].0 as int, sp@[k].1 as int));
            }
        }
        r
    }

    /// Extracts every origination value from `text`, in order of
    /// appearance.
    pub fn extract_originations(&self, text: &str) -> (r: Vec<String>)
        ensures
            r@.len() == orig_values(text@).len(),
            forall|k: int| 0 <= k < r@.len() ==> r@[k]@ == orig_values(text@)[k],
    {
        let v = chars_of(text);
        let sp = scan_loc_spans(&v);
        let r = strings_of_spans(&v, &sp);
        proof {
            assert forall|k: int| 0 <= k < r@.len() implies r@[k]@ == orig_values(v@)[k] by {
                assert(loc_spans_from(v@, 0)[k] == (sp@[k].0 as int, sp@[k].1 as int));
            }
        }
        r
    }

    /// Extracts every destination value from `text`, in order of
    /// appearance.
    pub fn extract_destinations(&self, text: &str) -> (r: Vec<String>)
        ensures
            r@.len() == dest_values(text@).len(),
            forall|k: int| 0 <= k < r@.len() ==> r@[k]@ == dest_values(text@)[k],
    {
        let v = chars_of(text);
        let sp = scan_dest_spans(&v);
        let r = strings_of_spans(&v, &sp);
        proof {
            assert forall|k: int| 0 <= k < r@.len() implies r@[k]@ == dest_values(v@)[k] by {
                assert(dest_spans_from(v@, 0)[k] == (sp@[k].0 as int, sp@[k].1 as int));
            }
        }
        r
    }

    /// True exactly when `text` contains the call-detail table header.
    pub fn has_call_detail_table(text: &str) -> (b: bool)
        ensures
            b == header_found_from(text@, 0),
    {
        let v = chars_of(text);
        let mut i: usize = 0;
        while i < v.len()
            invariant
                0 <= i <= v@.len(),
                text@ == v@,
                header_found_from(v@, 0) == header_found_from(v@, i as int),
            decreases v@.len() - i,
        {
            if check_header_at(&v, i) {
                return true;
            }
            i = i + 1;
        }
        false
    }

    /// Extracts every call-detail column value from `text`: the times in
    /// order of appearance, then the distinct origination values in
    /// lexicographic order, then the distinct destination values in
    /// lexicographic order.
    pub fn extract_all_call_details(&self, text: &str) -> (r: Vec<String>)
        ensures
            r@.len() == time_values(text@).len() + sort_dedup(orig_values(text@)).len()
                + sort_dedup(dest_values(text@)).len(),
            forall|k: int|
                0 <= k < time_values(text@).len() ==> r@[k]@ == time_values(text@)[k],
            forall|k: int|
                0 <= k < sort_dedup(orig_values(text@)).len() ==> r@[time_values(text@).len()
                    + k]@ == sort_dedup(orig_values(text@))[k],
            forall|k: int|
                0 <= k < sort_dedup(dest_values(text@)).len() ==> r@[time_values(text@).len()
                    + sort_dedup(orig_values(text@)).len() + k]@ == sort_dedup(
                    dest_values(text@),
                )[k],
    {
        let v = chars_of(text);
        let tsp = scan_time_spans(&v);
        let mut out = strings_of_spans(&v, &tsp);
        proof {
            assert forall|k: int| 0 <= k < out@.len() implies out@[k]@ == time_values(v@)[k] by {
                assert(time_spans_from(v@, 0)[k] == (tsp@[k].0 as int, tsp@[k].1 as int));
            }
            assert(out@.len() == time_values(v@).len());
        }
        let ghost tlen = out@.len() as int;

        let osp = scan_loc_spans(&v);
        let ovals = values_of_spans(&v, &osp);
        proof {
            assert forall|k: int| 0 <= k < views_of(ovals@).len() implies views_of(ovals@)[k]
                == orig_values(v@)[k] by {
                assert(views_of(ovals@)[k] == ovals@[k]@);
                assert(loc_spans_from(v@, 0)[k] == (osp@[k].0 as int, osp@[k].1 as int));
            }
            assert(views_of(ovals@) =~= orig_values(v@));
        }
        let so = sort_dedup_exec(ovals);
        let mut k: usize = 0;
        while k < so.len()
            invariant
                0 <= k <= so@.len(),
                views_of(so@) == sort_dedup(orig_values(v@)),
                out@.len() == tlen + k,
                tlen == time_values(v@).len(),
                forall|j: int| 0 <= j < tlen ==> out@[j]@ == time_values(v@)[j],
                forall|j: int| 0 <= j < k ==> out@[tlen + j]@ == views_of(so@)[j],
            decreases so@.len() - k,
        {
            let s = string_from(&so[k]);
            out.push(s);
            proof {
                assert(views_of(so@)[k as int] == so@[k as int]@);
            }
            k = k + 1;
        }
        let ghost olen = so@.len() as int;

        let dsp = scan_dest_spans(&v);
        let dvals = values_of_spans(&v, &dsp);
        proof {
            assert forall|k2: int| 0 <= k2 < views_of(dvals@).len() implies views_of(dvals@)[k2]
                == dest_values(v@)[k2] by {
                assert(views_of(dvals@)[k2] == dvals@[k2]@);
                assert(dest_spans_from(v@, 0)[k2] == (dsp@[k2].0 as int, dsp@[k2].1 as int));
            }
            assert(views_of(dvals@) =~= dest_values(v@));
        }
        let sd = sort_dedup_exec(dvals);
        let mut k2: usize = 0;
        while k2 < sd.len()
            invariant
                0 <= k2 <= sd@.len(),
                views_of(sd@) == sort_dedup(dest_values(v@)),
                out@.len() == tlen + olen + k2,
                tlen == time_values(v@).len(),
                olen == sort_dedup(orig_values(v@)).len(),
                forall|j: int| 0 <= j < tlen ==> out@[j]@ == time_values(v@)[j],
                forall|j: int| 0 <= j < olen ==> out@[tlen + j]@ == sort_dedup(orig_values(v@))[j],
                forall|j: int| 0 <= j < k2 ==> out@[tlen + olen + j]@ == views_of(sd@)[j],
            decreases sd@.len() - k2,
        {
            let s = string_from(&sd[k2]);
            out.push(s);
            proof {
                assert(views_of(sd@)[k2 as int] == sd@[k2 as int]@);
            }
            k2 = k2 + 1;
        }
        out
    }

    /// Returns `text` unchanged when it matches the combined call-detail
    /// grammar somewhere, `None` otherwise; this matcher transforms no
    /// values.
    pub fn normalize(&self, text: &str) -> (r: Option<String>)
        ensures
            r is Some <==> combined_spans_from(text@, 0).len() != 0,
            r is Some ==> r->0@ == text@,
    {
        let v = chars_of(text);
        let mut i: usize = 0;
        while i < v.len()
            invariant
                0 <= i <= v@.len(),
                text@ == v@,
                combined_spans_from(v@, 0) == combined_spans_from(v@, i as int),
            decreases v@.len() - i,
        {
            match find_combined_at(&v, i) {
                Some(e) => {
                    proof {
                        assert(combined_spans_from(v@, i as int) == seq![(i as int, e as int)]
                            + combined_spans_from(v@, e as int));
                    }
                    let s = string_from(&v);
                    return Some(s);
                },
                None => {
                    i = i + 1;
                },
            }
        }
        None
    }

    /// Returns every non-overlapping substring of `text` matching the
    /// combined call-detail grammar, left to right.
    pub fn extract_all(&self, text: &str) -> (r: Vec<String>)
        ensures
            r@.len() == combined_spans_from(text@, 0).len(),
            forall|k: int|
                0 <= k < r@.len() ==> r@[k]@ == span_values(text@, combined_spans_from(text@, 0))[k],
    {
        let v = chars_of(text);
        let sp = scan_combined_spans(&v);
        let r = strings_of_spans(&v, &sp);
        proof {
            assert forall|k: int| 0 <= k < r@.len() implies r@[k]@ == span_values(
                v@,
                combined_spans_from(v@, 0),
            )[k] by {
                assert(combined_spans_from(v@, 0)[k] == (sp@[k].0 as int, sp@[k].1 as int));
            }
        }
        r
    }

    /// Returns the input unchanged as the sole variant: call-detail
    /// values must match verbatim.
    pub fn generate_variants(&self, text: &str) -> (r: Vec<String>)
        ensures
            r@.len() == 1,
            r@[0]@ == text@,
    {
        let v = chars_of(text);
        let s = string_from(&v);
        let mut out: Vec<String> = Vec::new();
        out.push(s);
        out
    }
}

} // verus!
