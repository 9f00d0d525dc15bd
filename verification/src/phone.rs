//! North American (NANP) phone number detection, validation,
//! normalization and variant generation.
//!
//! The detection grammar tolerates an optional `+1` country-code prefix,
//! optional parentheses around the area code, and `-`, `.` or whitespace
//! between groups; a match cannot be extended by a following word
//! character. It is specified here as a deterministic scan over the
//! character sequence, and the executable matcher is proved to return
//! exactly the matches of that grammar.

use vstd::prelude::*;

use crate::text::CharClass;
use crate::text::append_range;
use crate::text::boundary_after;
use crate::text::chars_of;
use crate::text::copy_range;
use crate::text::digit_char;
use crate::text::find_run_end;
use crate::text::is_digit_char;
use crate::text::is_sep_char;
use crate::text::run_end;
use crate::text::sep_char;
use crate::text::string_from;
use crate::text::word_char;

verus! {

/// Exactly `n` consecutive digits stand at position `i`.
pub open spec fn digits_at(s: Seq<char>, i: int, n: int) -> bool {
    &&& 0 <= i
    &&& i + n <= s.len()
    &&& forall|k: int| i <= k < i + n ==> is_digit_char(s[k])
}

/// End of the optional country-code prefix (`+? ws* 1 sep?`) started at
/// `i`, or `None` if the prefix is not present there.
pub open spec fn phone_prefix_end(s: Seq<char>, i: int) -> Option<int> {
    let j = if 0 <= i < s.len() && s[i] == '+' {
        i + 1
    } else {
        i
    };
    let j1 = run_end(CharClass::Space, s, j);
    if 0 <= j1 < s.len() && s[j1] == '1' {
        if j1 + 1 < s.len() && is_sep_char(s[j1 + 1]) {
            Some(j1 + 2)
        } else {
            Some(j1 + 1)
        }
    } else {
        None
    }
}

/// The core of a phone match starting at `i` (after any prefix):
/// optional `(`, the three digit groups with their separators, and a word
/// boundary after the last digit. Returns the positions of the area,
/// exchange and subscriber groups and the end of the match.
pub open spec fn phone_core_at(s: Seq<char>, i: int) -> Option<(int, int, int, int)> {
    let j0 = if 0 <= i < s.len() && s[i] == '(' {
        i + 1
    } else {
        i
    };
    let a = run_end(CharClass::Space, s, j0);
    if !(digits_at(s, a, 3) && '2' <= s[a] && s[a] <= '9') {
        None
    } else {
        let b0 = run_end(CharClass::Space, s, a + 3);
        let b1 = if 0 <= b0 < s.len() && s[b0] == ')' {
            b0 + 1
        } else {
            b0
        };
        let b2 = if 0 <= b1 < s.len() && is_sep_char(s[b1]) {
            b1 + 1
        } else {
            b1
        };
        let b3 = run_end(CharClass::Space, s, b2);
        if !digits_at(s, b3, 3) {
            None
        } else {
            let c1 = if b3 + 3 < s.len() && is_sep_char(s[b3 + 3]) {
                b3 + 4
            } else {
                b3 + 3
            };
            let c2 = run_end(CharClass::Space, s, c1);
            if digits_at(s, c2, 4) && boundary_after(s, c2 + 4) {
                Some((a, b3, c2, c2 + 4))
            } else {
                None
            }
        }
    }
}

/// A whole phone match at position `i`: the prefixed form is preferred,
/// and the bare form is tried when the prefix is absent or leads nowhere.
pub open spec fn phone_at(s: Seq<char>, i: int) -> Option<(int, int, int, int)> {
    match phone_prefix_end(s, i) {
        Some(p) => match phone_core_at(s, p) {
            Some(m) => Some(m),
            None => phone_core_at(s, i),
        },
        None => phone_core_at(s, i),
    }
}

/// All phone matches of `s` from position `i` on: leftmost first,
/// non-overlapping, each entry the pair of its start and its group
/// positions.
pub open spec fn phone_matches_from(s: Seq<char>, i: int) -> Seq<(int, (int, int, int, int))>
    decreases s.len() - i,
{
    if !(0 <= i < s.len()) {
        Seq::empty()
    } else {
        match phone_at(s, i) {
            Some(m) => if m.3 > i {
                seq![(i, m)] + phone_matches_from(s, m.3)
            } else {
                phone_matches_from(s, i + 1)
            },
            None => phone_matches_from(s, i + 1),
        }
    }
}

/// All phone matches of `s`.
pub open spec fn phone_matches(s: Seq<char>) -> Seq<(int, (int, int, int, int))> {
    phone_matches_from(s, 0)
}

/// The NANP validation rule on the three captured groups: area and
/// exchange are exactly three digits leading with `2`–`9`, the
/// subscriber exactly four digits of any value.
pub open spec fn nanp_valid_groups(area: Seq<char>, exchange: Seq<char>, subscriber: Seq<char>) -> bool {
    &&& area.len() == 3
    &&& exchange.len() == 3
    &&& subscriber.len() == 4
    &&& digits_at(area, 0, 3)
    &&& digits_at(exchange, 0, 3)
    &&& digits_at(subscriber, 0, 4)
    &&& '2' <= area[0] <= '9'
    &&& '2' <= exchange[0] <= '9'
}

/// What normalization returns on `s`: the concatenated digit groups of
/// the first match, provided they validate; `None` otherwise.
pub open spec fn phone_normalize_spec(s: Seq<char>) -> Option<Seq<char>> {
    let ms = phone_matches(s);
    if ms.len() == 0 {
        None
    } else {
        let m = ms[0].1;
        let area = s.subrange(m.0, m.0 + 3);
        let exchange = s.subrange(m.1, m.1 + 3);
        let subscriber = s.subrange(m.2, m.2 + 4);
        if nanp_valid_groups(area, exchange, subscriber) {
            Some(area + exchange + subscriber)
        } else {
            None
        }
    }
}

/// The variant spellings generated for a normalized value: six fixed
/// formats for a ten-character value, the value alone otherwise.
pub open spec fn phone_variants_spec(n: Seq<char>) -> Seq<Seq<char>> {
    if n.len() != 10 {
        seq![n]
    } else {
        let a = n.subrange(0, 3);
        let e = n.subrange(3, 6);
        let su = n.subrange(6, 10);
        seq![
            n,
            a + seq!['-'] + e + seq!['-'] + su,
            seq!['('] + a + seq![')', ' '] + e + seq!['-'] + su,
            a + seq!['.'] + e + seq!['.'] + su,
            seq!['+', '1', ' '] + a + seq![' '] + e + seq![' '] + su,
            seq!['+', '1', '-'] + a + seq!['-'] + e + seq!['-'] + su,
        ]
    }
}

/// The groups of any match are digit runs with the area leading
/// `2`–`9`: the grammar admits nothing else at the group positions.
proof fn lemma_match_groups_digits(s: Seq<char>, i: int, m: (int, int, int, int))
    requires
        phone_at(s, i) == Some(m),
    ensures
        digits_at(s, m.0, 3),
        '2' <= s[m.0] <= '9',
        digits_at(s, m.1, 3),
        digits_at(s, m.2, 4),
{
    match phone_prefix_end(s, i) {
        Some(p) => {
            if phone_core_at(s, p) is Some {
                assert(phone_core_at(s, p) == Some(m));
            } else {
                assert(phone_core_at(s, i) == Some(m));
            }
        },
        None => {
            assert(phone_core_at(s, i) == Some(m));
        },
    }
}

/// A text that is exactly one phone match, with groups at `a`, `b` and
/// `c` carrying the digits of `n`, normalizes back to `n`.
proof fn lemma_norm_of(v: Seq<char>, n: Seq<char>, a: int, b: int, c: int)
    requires
        phone_at(v, 0) == Some((a, b, c, c + 4)),
        c + 4 == v.len(),
        v.len() > 0,
        0 <= a && a + 3 <= v.len(),
        0 <= b && b + 3 <= v.len(),
        0 <= c,
        v.subrange(a, a + 3) == n.subrange(0, 3),
        v.subrange(b, b + 3) == n.subrange(3, 6),
        v.subrange(c, c + 4) == n.subrange(6, 10),
        n.len() == 10,
        '2' <= n[0] <= '9',
        '2' <= n[3] <= '9',
    ensures
        phone_normalize_spec(v) == Some(n),
{
    let m = (a, b, c, c + 4);
    assert(phone_matches_from(v, c + 4) =~= Seq::<(int, (int, int, int, int))>::empty());
    assert(phone_matches_from(v, 0) =~= seq![(0int, m)]);
    let area = v.subrange(a, a + 3);
    let exchange = v.subrange(b, b + 3);
    let subscriber = v.subrange(c, c + 4);
    assert(area[0] == n.subrange(0, 3)[0]);
    assert(exchange[0] == n.subrange(3, 6)[0]);
    assert forall|k: int| 0 <= k < 3 implies is_digit_char(area[k]) by {
        assert(area[k] == n.subrange(0, 3)[k]);
    }
    assert forall|k: int| 0 <= k < 3 implies is_digit_char(exchange[k]) by {
        assert(exchange[k] == n.subrange(3, 6)[k]);
    }
    assert forall|k: int| 0 <= k < 4 implies is_digit_char(subscriber[k]) by {
        assert(subscriber[k] == n.subrange(6, 10)[k]);
    }
    assert(nanp_valid_groups(area, exchange, subscriber));
    assert(area + exchange + subscriber =~= n);
}

/// Round-trip stability: on a valid ten-digit NANP value — every
/// character a digit, the area and exchange groups leading with `2`–`9`
/// — normalization returns the value itself on each of its generated
/// variant spellings.
pub proof fn lemma_variants_round_trip(n: Seq<char>)
    requires
        n.len() == 10,
        forall|k: int| 0 <= k < 10 ==> is_digit_char(n[k]),
        '2' <= n[0] <= '9',
        '2' <= n[3] <= '9',
    ensures
        forall|k: int|
            0 <= k < phone_variants_spec(n).len() ==> phone_normalize_spec(
                #[trigger] phone_variants_spec(n)[k],
            ) == Some(n),
{
    let a0 = n.subrange(0, 3);
    let e0 = n.subrange(3, 6);
    let s0 = n.subrange(6, 10);
    let vs = phone_variants_spec(n);
    assert(vs.len() == 6);

    // Bare ten digits.
    let v0 = n;
    assert(phone_prefix_end(v0, 0) is None);
    assert(phone_core_at(v0, 0) == Some((0int, 3int, 6int, 10int)));
    assert(v0.subrange(0, 3) =~= a0);
    assert(v0.subrange(3, 6) =~= e0);
    assert(v0.subrange(6, 10) =~= s0);
    lemma_norm_of(v0, n, 0, 3, 6);
    assert(vs[0] == v0);

    // Hyphenated groups.
    let v1 = a0 + seq!['-'] + e0 + seq!['-'] + s0;
    assert(v1.len() == 12);
    assert(v1[0] == n[0] && v1[1] == n[1] && v1[2] == n[2]);
    assert(v1[3] == '-');
    assert(v1[4] == n[3] && v1[5] == n[4] && v1[6] == n[5]);
    assert(v1[7] == '-');
    assert(v1[8] == n[6] && v1[9] == n[7] && v1[10] == n[8] && v1[11] == n[9]);
    assert(phone_prefix_end(v1, 0) is None);
    assert(phone_core_at(v1, 0) == Some((0int, 4int, 8int, 12int)));
    assert(v1.subrange(0, 3) =~= a0);
    assert(v1.subrange(4, 7) =~= e0);
    assert(v1.subrange(8, 12) =~= s0);
    lemma_norm_of(v1, n, 0, 4, 8);
    assert(vs[1] == v1);

    // Parenthesized area code.
    let v2 = seq!['('] + a0 + seq![')', ' '] + e0 + seq!['-'] + s0;
    assert(v2.len() == 14);
    assert(v2[0] == '(');
    assert(v2[1] == n[0] && v2[2] == n[1] && v2[3] == n[2]);
    assert(v2[4] == ')' && v2[5] == ' ');
    assert(v2[6] == n[3] && v2[7] == n[4] && v2[8] == n[5]);
    assert(v2[9] == '-');
    assert(v2[10] == n[6] && v2[11] == n[7] && v2[12] == n[8] && v2[13] == n[9]);
    assert(phone_prefix_end(v2, 0) is None);
    assert(run_end(CharClass::Space, v2, 1) == 1);
    assert(digits_at(v2, 1, 3));
    assert(run_end(CharClass::Space, v2, 4) == 4);
    assert(run_end(CharClass::Space, v2, 6) == 6);
    assert(digits_at(v2, 6, 3));
    assert(run_end(CharClass::Space, v2, 10) == 10);
    assert(digits_at(v2, 10, 4));
    assert(phone_core_at(v2, 0) == Some((1int, 6int, 10int, 14int)));
    assert(v2.subrange(1, 4) =~= a0);
    assert(v2.subrange(6, 9) =~= e0);
    assert(v2.subrange(10, 14) =~= s0);
    lemma_norm_of(v2, n, 1, 6, 10);
    assert(vs[2] == v2);

    // Dotted groups.
    let v3 = a0 + seq!['.'] + e0 + seq!['.'] + s0;
    assert(v3.len() == 12);
    assert(v3[0] == n[0] && v3[1] == n[1] && v3[2] == n[2]);
    assert(v3[3] == '.');
    assert(v3[4] == n[3] && v3[5] == n[4] && v3[6] == n[5]);
    assert(v3[7] == '.');
    assert(v3[8] == n[6] && v3[9] == n[7] && v3[10] == n[8] && v3[11] == n[9]);
    assert(phone_prefix_end(v3, 0) is None);
    assert(phone_core_at(v3, 0) == Some((0int, 4int, 8int, 12int)));
    assert(v3.subrange(0, 3) =~= a0);
    assert(v3.subrange(4, 7) =~= e0);
    assert(v3.subrange(8, 12) =~= s0);
    lemma_norm_of(v3, n, 0, 4, 8);
    assert(vs[3] == v3);

    // Spaced groups behind the country code.
    let v4 = seq!['+', '1', ' '] + a0 + seq![' '] + e0 + seq![' '] + s0;
    assert(v4.len() == 15);
    assert(v4[0] == '+' && v4[1] == '1' && v4[2] == ' ');
    assert(v4[3] == n[0] && v4[4] == n[1] && v4[5] == n[2]);
    assert(v4[6] == ' ');
    assert(v4[7] == n[3] && v4[8] == n[4] && v4[9] == n[5]);
    assert(v4[10] == ' ');
    assert(v4[11] == n[6] && v4[12] == n[7] && v4[13] == n[8] && v4[14] == n[9]);
    assert(run_end(CharClass::Space, v4, 1) == 1);
    assert(phone_prefix_end(v4, 0) == Some(3int));
    assert(run_end(CharClass::Space, v4, 3) == 3);
    assert(digits_at(v4, 3, 3));
    assert(run_end(CharClass::Space, v4, 6) == 7);
    assert(digits_at(v4, 7, 3));
    assert(run_end(CharClass::Space, v4, 11) == 11);
    assert(digits_at(v4, 11, 4));
    assert(phone_core_at(v4, 3) == Some((3int, 7int, 11int, 15int)));
    assert(phone_at(v4, 0) == Some((3int, 7int, 11int, 15int)));
    assert(v4.subrange(3, 6) =~= a0);
    assert(v4.subrange(7, 10) =~= e0);
    assert(v4.subrange(11, 15) =~= s0);
    lemma_norm_of(v4, n, 3, 7, 11);
    assert(vs[4] == v4);

    // Hyphenated groups behind the country code.
    let v5 = seq!['+', '1', '-'] + a0 + seq!['-'] + e0 + seq!['-'] + s0;
    assert(v5.len() == 15);
    assert(v5[0] == '+' && v5[1] == '1' && v5[2] == '-');
    assert(v5[3] == n[0] && v5[4] == n[1] && v5[5] == n[2]);
    assert(v5[6] == '-');
    assert(v5[7] == n[3] && v5[8] == n[4] && v5[9] == n[5]);
    assert(v5[10] == '-');
    assert(v5[11] == n[6] && v5[12] == n[7] && v5[13] == n[8] && v5[14] == n[9]);
    assert(run_end(CharClass::Space, v5, 1) == 1);
    assert(phone_prefix_end(v5, 0) == Some(3int));
    assert(run_end(CharClass::Space, v5, 3) == 3);
    assert(digits_at(v5, 3, 3));
    assert(run_end(CharClass::Space, v5, 6) == 6);
    assert(run_end(CharClass::Space, v5, 7) == 7);
    assert(digits_at(v5, 7, 3));
    assert(run_end(CharClass::Space, v5, 11) == 11);
    assert(digits_at(v5, 11, 4));
    assert(phone_core_at(v5, 3) == Some((3int, 7int, 11int, 15int)));
    assert(phone_at(v5, 0) == Some((3int, 7int, 11int, 15int)));
    assert(v5.subrange(3, 6) =~= a0);
    assert(v5.subrange(7, 10) =~= e0);
    assert(v5.subrange(11, 15) =~= s0);
    lemma_norm_of(v5, n, 3, 7, 11);
    assert(vs[5] == v5);
}

/// Exec test for [`digits_at`].
pub(crate) fn check_digits_at(v: &Vec<char>, i: usize, n: usize) -> (b: bool)
    ensures
        b == digits_at(v@, i as int, n as int),
{
    if i > v.len() || n > v.len() - i {
        return false;
    }
    let mut k: usize = 0;
    while k < n
        invariant
            0 <= k <= n,
            i + n <= v@.len(),
            v@.len() <= usize::MAX,
            forall|j: int| i <= j < i + k ==> is_digit_char(v@[j]),
        decreases n - k,
    {
        if !digit_char(v[i + k]) {
            return false;
        }
        k = k + 1;
    }
    true
}

/// Exec computation of [`phone_prefix_end`].
fn find_phone_prefix_end(v: &Vec<char>, i: usize) -> (r: Option<usize>)
    requires
        i <= v@.len(),
    ensures
        match r {
            Some(p) => phone_prefix_end(v@, i as int) == Some(p as int) && i <= p <= v@.len(),
            None => phone_prefix_end(v@, i as int) is None,
        },
{
    let j: usize = if i < v.len() && v[i] == '+' {
        i + 1
    } else {
        i
    };
    let j1 = find_run_end(CharClass::Space, v, j);
    if j1 < v.len() && v[j1] == '1' {
        if j1 + 1 < v.len() && sep_char(v[j1 + 1]) {
            Some(j1 + 2)
        } else {
            Some(j1 + 1)
        }
    } else {
        None
    }
}

/// Exec computation of [`phone_core_at`].
fn find_phone_core_at(v: &Vec<char>, i: usize) -> (r: Option<(usize, usize, usize, usize)>)
    requires
        i <= v@.len(),
    ensures
        match r {
            Some(m) => {
                &&& phone_core_at(v@, i as int) == Some(
                    (m.0 as int, m.1 as int, m.2 as int, m.3 as int),
                )
                &&& i <= m.3 <= v@.len()
                &&& m.0 + 3 <= v@.len()
                &&& m.1 + 3 <= v@.len()
                &&& m.2 + 4 == m.3
            },
            None => phone_core_at(v@, i as int) is None,
        },
{
    let j0: usize = if i < v.len() && v[i] == '(' {
        i + 1
    } else {
        i
    };
    let a = find_run_end(CharClass::Space, v, j0);
    if !(check_digits_at(v, a, 3) && '2' <= v[a] && v[a] <= '9') {
        return None;
    }
    let b0 = find_run_end(CharClass::Space, v, a + 3);
    let b1: usize = if b0 < v.len() && v[b0] == ')' {
        b0 + 1
    } else {
        b0
    };
    let b2: usize = if b1 < v.len() && sep_char(v[b1]) {
        b1 + 1
    } else {
        b1
    };
    let b3 = find_run_end(CharClass::Space, v, b2);
    if !check_digits_at(v, b3, 3) {
        return None;
    }
    let c1: usize = if b3 + 3 < v.len() && sep_char(v[b3 + 3]) {
        b3 + 4
    } else {
        b3 + 3
    };
    let c2 = find_run_end(CharClass::Space, v, c1);
    if check_digits_at(v, c2, 4) && (c2 + 4 == v.len() || !word_char(v[c2 + 4])) {
        Some((a, b3, c2, c2 + 4))
    } else {
        None
    }
}

/// Exec computation of [`phone_at`].
pub(crate) fn find_phone_at(v: &Vec<char>, i: usize) -> (r: Option<(usize, usize, usize, usize)>)
    requires
        i <= v@.len(),
    ensures
        match r {
            Some(m) => {
                &&& phone_at(v@, i as int) == Some((m.0 as int, m.1 as int, m.2 as int, m.3 as int))
                &&& i <= m.3 <= v@.len()
                &&& m.0 + 3 <= v@.len()
                &&& m.1 + 3 <= v@.len()
                &&& m.2 + 4 == m.3
            },
            None => phone_at(v@, i as int) is None,
        },
{
    match find_phone_prefix_end(v, i) {
        Some(p) => match find_phone_core_at(v, p) {
            Some(m) => Some(m),
            None => find_phone_core_at(v, i),
        },
        None => find_phone_core_at(v, i),
    }
}

/// Matcher for North American (NANP) telephone numbers.
pub struct PhoneNumberMatcher {
}

impl PhoneNumberMatcher {
    /// Creates a new phone number matcher.
    pub fn new() -> (r: Self) {
        PhoneNumberMatcher {  }
    }

    /// Validates that three captured groups follow the NANP rules: area
    /// and exchange must be exactly three digits leading with `2`–`9`,
    /// the subscriber exactly four digits of any value.
    pub fn validate(area: &str, exchange: &str, subscriber: &str) -> (b: bool)
        ensures
            b == nanp_valid_groups(area@, exchange@, subscriber@),
    {
        let va = chars_of(area);
        let ve = chars_of(exchange);
        let vs = chars_of(subscriber);
        if !(va.len() == 3 && ve.len() == 3 && vs.len() == 4) {
            return false;
        }
        if !(check_digits_at(&va, 0, 3) && check_digits_at(&ve, 0, 3) && check_digits_at(
            &vs,
            0,
            4,
        )) {
            return false;
        }
        ('2' <= va[0] && va[0] <= '9') && ('2' <= ve[0] && ve[0] <= '9')
    }

    /// Returns every non-overlapping raw substring of `text` that
    /// matches the detection grammar, left to right.
    pub fn extract_all(&self, text: &str) -> (r: Vec<String>)
        ensures
            r@.len() == phone_matches(text@).len(),
            forall|k: int|
                0 <= k < r@.len() ==> r@[k]@ == text@.subrange(
                    phone_matches(text@)[k].0,
                    phone_matches(text@)[k].1.3,
                ),
    {
        let v = chars_of(text);
        let mut out: Vec<String> = Vec::new();
        let ghost done: Seq<(int, (int, int, int, int))> = Seq::empty();
        let mut i: usize = 0;
        proof {
            assert(done + phone_matches_from(v@, 0) =~= phone_matches_from(v@, 0));
        }
        let ghost mut done = done;
        while i < v.len()
            invariant
                0 <= i <= v@.len(),
                text@ == v@,
                phone_matches(v@) == done + phone_matches_from(v@, i as int),
                out@.len() == done.len(),
                forall|k: int|
                    0 <= k < done.len() ==> out@[k]@ == v@.subrange(done[k].0, done[k].1.3),
            decreases v@.len() - i,
        {
            match find_phone_at(&v, i) {
                Some(m) => {
                    if m.3 > i {
                        let piece = copy_range(&v, i, m.3);
                        let s = string_from(&piece);
                        out.push(s);
                        proof {
                            let gm = (m.0 as int, m.1 as int, m.2 as int, m.3 as int);
                            assert(phone_matches_from(v@, i as int) == seq![(i as int, gm)]
                                + phone_matches_from(v@, m.3 as int));
                            done = done + seq![(i as int, gm)];
                            assert(phone_matches(v@) == (done
                                + phone_matches_from(v@, m.3 as int)));
                        }
                        i = m.3;
                    } else {
                        i = i + 1;
                    }
                },
                None => {
                    i = i + 1;
                },
            }
        }
        proof {
            assert(done + phone_matches_from(v@, i as int) =~= done);
        }
        out
    }

    /// Finds the first match in `text` and returns its ten digits when
    /// the groups validate; `None` when there is no match or validation
    /// fails.
    pub fn normalize(&self, text: &str) -> (r: Option<String>)
        ensures
            r is Some <==> phone_normalize_spec(text@) is Some,
            r is Some ==> r->0@ == phone_normalize_spec(text@)->0,
    {
        let v = chars_of(text);
        let mut i: usize = 0;
        while i < v.len()
            invariant
                0 <= i <= v@.len(),
                text@ == v@,
                phone_matches(v@) == phone_matches_from(v@, i as int),
            decreases v@.len() - i,
        {
            match find_phone_at(&v, i) {
                Some(m) => {
                    if m.3 > i {
                        proof {
                            let gm = (m.0 as int, m.1 as int, m.2 as int, m.3 as int);
                            assert(phone_matches_from(v@, i as int) == seq![(i as int, gm)]
                                + phone_matches_from(v@, m.3 as int));
                            assert(phone_matches(v@)[0] == (i as int, gm));
                            assert(phone_matches(v@).len() > 0);
                        }
                        let ce = v[m.1];
                        if '2' <= ce && ce <= '9' {
                            let mut digits = copy_range(&v, m.0, m.0 + 3);
                            append_range(&mut digits, &v, m.1, m.1 + 3);
                            append_range(&mut digits, &v, m.2, m.2 + 4);
                            let s = string_from(&digits);
                            proof {
                                let gm = (m.0 as int, m.1 as int, m.2 as int, m.3 as int);
                                lemma_match_groups_digits(v@, i as int, gm);
                                let area = v@.subrange(m.0 as int, m.0 as int + 3);
                                let exchange = v@.subrange(m.1 as int, m.1 as int + 3);
                                let subscriber = v@.subrange(m.2 as int, m.2 as int + 4);
                                assert forall|k: int| 0 <= k < 3 implies is_digit_char(
                                    area[k],
                                ) by {
                                    assert(area[k] == v@[m.0 + k]);
                                }
                                assert forall|k: int| 0 <= k < 3 implies is_digit_char(
                                    exchange[k],
                                ) by {
                                    assert(exchange[k] == v@[m.1 + k]);
                                }
                                assert forall|k: int| 0 <= k < 4 implies is_digit_char(
                                    subscriber[k],
                                ) by {
                                    assert(subscriber[k] == v@[m.2 + k]);
                                }
                                assert(nanp_valid_groups(area, exchange, subscriber));
                                assert(digits@ == area + exchange + subscriber);
                            }
                            return Some(s);
                        } else {
                            proof {
                                let exchange = v@.subrange(m.1 as int, m.1 as int + 3);
                                assert(exchange[0] == v@[m.1 as int]);
                            }
                            return None;
                        }
                    } else {
                        i = i + 1;
                    }
                },
                None => {
                    i = i + 1;
                },
            }
        }
        proof {
            assert(phone_matches(v@).len() == 0);
        }
        None
    }

    /// Generates the variant spellings of a normalized value: the six
    /// fixed formats for a ten-character value, the input alone for any
    /// other length.
    pub fn generate_variants(&self, normalized: &str) -> (r: Vec<String>)
        ensures
            r@.len() == phone_variants_spec(normalized@).len(),
            forall|k: int|
                0 <= k < r@.len() ==> r@[k]@ == phone_variants_spec(normalized@)[k],
            r@.len() >= 1,
    {
        let v = chars_of(normalized);
        let mut out: Vec<String> = Vec::new();
        if v.len() != 10 {
            let s = string_from(&v);
            out.push(s);
            return out;
        }
        let ghost a = v@.subrange(0, 3);
        let ghost e = v@.subrange(3, 6);
        let ghost su = v@.subrange(6, 10);

        let s0 = string_from(&v);
        out.push(s0);

        // AAA-EEE-SSSS
        let mut v1: Vec<char> = Vec::new();
        append_range(&mut v1, &v, 0, 3);
        v1.push('-');
        append_range(&mut v1, &v, 3, 6);
        v1.push('-');
        append_range(&mut v1, &v, 6, 10);
        proof {
            assert(v1@ =~= a + seq!['-'] + e + seq!['-'] + su);
        }
        let s1 = string_from(&v1);
        out.push(s1);

        // (AAA) EEE-SSSS
        let mut v2: Vec<char> = Vec::new();
        v2.push('(');
        append_range(&mut v2, &v, 0, 3);
        v2.push(')');
        v2.push(' ');
        append_range(&mut v2, &v, 3, 6);
        v2.push('-');
        append_range(&mut v2, &v, 6, 10);
        proof {
            assert(v2@ =~= seq!['('] + a + seq![')', ' '] + e + seq!['-'] + su);
        }
        let s2 = string_from(&v2);
        out.push(s2);

        // AAA.EEE.SSSS
        let mut v3: Vec<char> = Vec::new();
        append_range(&mut v3, &v, 0, 3);
        v3.push('.');
        append_range(&mut v3, &v, 3, 6);
        v3.push('.');
        append_range(&mut v3, &v, 6, 10);
        proof {
            assert(v3@ =~= a + seq!['.'] + e + seq!['.'] + su);
        }
        let s3 = string_from(&v3);
        out.push(s3);

        // +1 AAA EEE SSSS
        let mut v4: Vec<char> = Vec::new();
        v4.push('+');
        v4.push('1');
        v4.push(' ');
        append_range(&mut v4, &v, 0, 3);
        v4.push(' ');
        append_range(&mut v4, &v, 3, 6);
        v4.push(' ');
        append_range(&mut v4, &v, 6, 10);
        proof {
            assert(v4@ =~= seq!['+', '1', ' '] + a + seq![' '] + e + seq![' '] + su);
        }
        let s4 = string_from(&v4);
        out.push(s4);

        // +1-AAA-EEE-SSSS
        let mut v5: Vec<char> = Vec::new();
        v5.push('+');
        v5.push('1');
        v5.push('-');
        append_range(&mut v5, &v, 0, 3);
        v5.push('-');
        append_range(&mut v5, &v, 3, 6);
        v5.push('-');
        append_range(&mut v5, &v, 6, 10);
        proof {
            assert(v5@ =~= seq!['+', '1', '-'] + a + seq!['-'] + e + seq!['-'] + su);
        }
        let s5 = string_from(&v5);
        out.push(s5);

        proof {
            assert(normalized@.subrange(0, 3) == a);
            assert(normalized@.subrange(3, 6) == e);
            assert(normalized@.subrange(6, 10) == su);
        }
        out
    }
}

} // verus!
