//! Character-level text primitives shared by every matcher: character
//! classes, case-insensitive literal matching, maximal runs of a class,
//! and literal (non-regex) search-and-replace.
//!
//! All scanning works over `Vec<char>`; the boundary to `&str` / `String`
//! is crossed only by [`chars_of`] and [`string_from`].

use vstd::prelude::*;

verus! {

/// Whitespace as the matchers understand it: the ASCII whitespace characters.
pub open spec fn is_space_char(c: char) -> bool {
    c == ' ' || c == '\t' || c == '\n' || c == '\r' || c == '\u{b}' || c == '\u{c}'
}

/// An ASCII decimal digit.
pub open spec fn is_digit_char(c: char) -> bool {
    '0' <= c && c <= '9'
}

/// An ASCII upper-case letter.
pub open spec fn is_upper_char(c: char) -> bool {
    'A' <= c && c <= 'Z'
}

/// An ASCII lower-case letter.
pub open spec fn is_lower_char(c: char) -> bool {
    'a' <= c && c <= 'z'
}

/// A word character: letter, digit or underscore. Word boundaries are
/// judged against this class.
pub open spec fn is_word_char(c: char) -> bool {
    is_upper_char(c) || is_lower_char(c) || is_digit_char(c) || c == '_'
}

/// A group separator inside a phone number: `-`, `.` or whitespace.
pub open spec fn is_sep_char(c: char) -> bool {
    c == '-' || c == '.' || is_space_char(c)
}

/// Case-insensitive character comparison against a lower-case letter or
/// other reference character `b`.
pub open spec fn eq_ci(a: char, b: char) -> bool {
    a == b || (is_upper_char(a) && (a as u32) + 32 == (b as u32))
}

/// The literal `lit` occurs in `s` at position `i`, byte for byte.
pub open spec fn lit_at(s: Seq<char>, i: int, lit: Seq<char>) -> bool {
    &&& 0 <= i
    &&& i + lit.len() <= s.len()
    &&& forall|k: int| 0 <= k < lit.len() ==> s[i + k] == lit[k]
}

/// The literal `lit` occurs in `s` at position `i`, compared
/// case-insensitively (with `lit` given in lower case).
pub open spec fn lit_ci_at(s: Seq<char>, i: int, lit: Seq<char>) -> bool {
    &&& 0 <= i
    &&& i + lit.len() <= s.len()
    &&& forall|k: int| 0 <= k < lit.len() ==> eq_ci(s[i + k], lit[k])
}

/// Position `i` starts on a word boundary: the character before it, if
/// any, is not a word character.
pub open spec fn boundary_before(s: Seq<char>, i: int) -> bool {
    i == 0 || (0 < i <= s.len() && !is_word_char(s[i - 1]))
}

/// Position `i` ends on a word boundary: the character at it, if any, is
/// not a word character.
pub open spec fn boundary_after(s: Seq<char>, i: int) -> bool {
    i == s.len() || (0 <= i < s.len() && !is_word_char(s[i]))
}

/// The character classes over which the matchers take maximal runs.
#[derive(Clone, Copy, PartialEq, Eq, Structural)]
pub enum CharClass {
    /// ASCII whitespace.
    Space,
    /// ASCII digits.
    Digit,
    /// Letters and whitespace, as inside a location phrase.
    AlphaSpace,
    /// Digits, whitespace and hyphens, as in a loosely formatted number.
    DigitSpaceDash,
    /// Lower-case letters.
    LowerAlpha,
    /// Lower-case letters and digits.
    LowerAlnum,
    /// Anything but a closing parenthesis.
    NotRParen,
    /// Anything but a closing bracket.
    NotRBracket,
}

/// Membership of a character in one of the named classes.
pub open spec fn class_has(cl: CharClass, c: char) -> bool {
    match cl {
        CharClass::Space => is_space_char(c),
        CharClass::Digit => is_digit_char(c),
        CharClass::AlphaSpace => is_upper_char(c) || is_lower_char(c) || is_space_char(c),
        CharClass::DigitSpaceDash => is_digit_char(c) || is_space_char(c) || c == '-',
        CharClass::LowerAlpha => is_lower_char(c),
        CharClass::LowerAlnum => is_lower_char(c) || is_digit_char(c),
        CharClass::NotRParen => c != ')',
        CharClass::NotRBracket => c != ']',
    }
}

/// End of the maximal run of characters of class `cl` that starts at `i`.
pub open spec fn run_end(cl: CharClass, s: Seq<char>, i: int) -> int
    decreases s.len() - i,
{
    if 0 <= i < s.len() && class_has(cl, s[i]) {
        run_end(cl, s, i + 1)
    } else {
        i
    }
}

/// The basic facts about a maximal run: it stays inside the text, every
/// character inside it belongs to the class, and the character after it,
/// if any, does not.
pub proof fn lemma_run_end(cl: CharClass, s: Seq<char>, i: int)
    requires
        0 <= i <= s.len(),
    ensures
        i <= run_end(cl, s, i) <= s.len(),
        forall|k: int| i <= k < run_end(cl, s, i) ==> class_has(cl, s[k]),
        run_end(cl, s, i) < s.len() ==> !class_has(cl, s[run_end(cl, s, i)]),
    decreases s.len() - i,
{
    if i < s.len() && class_has(cl, s[i]) {
        lemma_run_end(cl, s, i + 1);
    }
}

/// Exec membership test for [`class_has`].
pub fn in_class(cl: CharClass, c: char) -> (b: bool)
    ensures
        b == class_has(cl, c),
{
    match cl {
        CharClass::Space => space_char(c),
        CharClass::Digit => digit_char(c),
        CharClass::AlphaSpace => ('A' <= c && c <= 'Z') || ('a' <= c && c <= 'z') || space_char(c),
        CharClass::DigitSpaceDash => digit_char(c) || space_char(c) || c == '-',
        CharClass::LowerAlpha => 'a' <= c && c <= 'z',
        CharClass::LowerAlnum => ('a' <= c && c <= 'z') || digit_char(c),
        CharClass::NotRParen => c != ')',
        CharClass::NotRBracket => c != ']',
    }
}

/// Exec test for [`is_space_char`].
pub fn space_char(c: char) -> (b: bool)
    ensures
        b == is_space_char(c),
{
    c == ' ' || c == '\t' || c == '\n' || c == '\r' || c == '\u{b}' || c == '\u{c}'
}

/// Exec test for [`is_digit_char`].
pub fn digit_char(c: char) -> (b: bool)
    ensures
        b == is_digit_char(c),
{
    '0' <= c && c <= '9'
}

/// Exec test for [`is_word_char`].
pub fn word_char(c: char) -> (b: bool)
    ensures
        b == is_word_char(c),
{
    ('A' <= c && c <= 'Z') || ('a' <= c && c <= 'z') || digit_char(c) || c == '_'
}

/// Exec test for [`is_sep_char`].
pub fn sep_char(c: char) -> (b: bool)
    ensures
        b == is_sep_char(c),
{
    c == '-' || c == '.' || space_char(c)
}

/// Exec computation of [`run_end`].
pub fn find_run_end(cl: CharClass, v: &Vec<char>, i: usize) -> (j: usize)
    requires
        i <= v@.len(),
    ensures
        j as int == run_end(cl, v@, i as int),
        i <= j <= v@.len(),
    decreases v@.len() - i,
{
    proof {
        lemma_run_end(cl, v@, i as int);
    }
    let mut j: usize = i;
    while j < v.len() && in_class(cl, v[j])
        invariant
            i <= j <= v@.len(),
            run_end(cl, v@, i as int) == run_end(cl, v@, j as int),
        decreases v@.len() - j,
    {
        j = j + 1;
    }
    j
}

/// Exec test for [`lit_at`], with the literal given as a string slice.
pub fn match_lit(v: &Vec<char>, i: usize, lit: &str) -> (b: bool)
    ensures
        b == lit_at(v@, i as int, lit@),
{
    let n = lit.unicode_len();
    if i > v.len() || n > v.len() - i {
        return false;
    }
    let mut k: usize = 0;
    while k < n
        invariant
            0 <= k <= n,
            n == lit@.len(),
            i + n <= v@.len(),
            v@.len() <= usize::MAX,
            forall|j: int| 0 <= j < k ==> v@[i + j] == lit@[j],
        decreases n - k,
    {
        if v[i + k] != lit.get_char(k) {
            return false;
        }
        k = k + 1;
    }
    true
}

/// Exec test for [`lit_ci_at`], with the literal given in lower case.
pub fn match_lit_ci(v: &Vec<char>, i: usize, lit: &str) -> (b: bool)
    ensures
        b == lit_ci_at(v@, i as int, lit@),
{
    let n = lit.unicode_len();
    if i > v.len() || n > v.len() - i {
        return false;
    }
    let mut k: usize = 0;
    while k < n
        invariant
            0 <= k <= n,
            n == lit@.len(),
            i + n <= v@.len(),
            v@.len() <= usize::MAX,
            forall|j: int| 0 <= j < k ==> eq_ci(v@[i + j], lit@[j]),
        decreases n - k,
    {
        let c = v[i + k];
        let l = lit.get_char(k);
        if !(c == l || (('A' <= c && c <= 'Z') && (c as u32) + 32 == (l as u32))) {
            return false;
        }
        k = k + 1;
    }
    true
}

/// Exec test for [`lit_at`], with the literal given as a `Vec<char>`.
pub fn match_lit_vec(v: &Vec<char>, i: usize, lit: &Vec<char>) -> (b: bool)
    ensures
        b == lit_at(v@, i as int, lit@),
{
    let n = lit.len();
    if i > v.len() || n > v.len() - i {
        return false;
    }
    let mut k: usize = 0;
    while k < n
        invariant
            0 <= k <= n,
            n == lit@.len(),
            i + n <= v@.len(),
            v@.len() <= usize::MAX,
            forall|j: int| 0 <= j < k ==> v@[i + j] == lit@[j],
        decreases n - k,
    {
        if v[i + k] != lit[k] {
            return false;
        }
        k = k + 1;
    }
    true
}

/// `s` with every occurrence of `pat` from position `i` on replaced by
/// `rep`, scanning left to right without overlap.
pub open spec fn replace_from(s: Seq<char>, pat: Seq<char>, rep: Seq<char>, i: int) -> Seq<char>
    decreases s.len() - i,
{
    if !(0 <= i < s.len()) {
        Seq::<char>::empty()
    } else if pat.len() > 0 && lit_at(s, i, pat) {
        rep + replace_from(s, pat, rep, i + pat.len() as int)
    } else {
        seq![s[i]] + replace_from(s, pat, rep, i + 1)
    }
}

/// `s` with every occurrence of `pat` replaced by `rep`, left to right,
/// without overlap.
pub open spec fn replace_all(s: Seq<char>, pat: Seq<char>, rep: Seq<char>) -> Seq<char> {
    replace_from(s, pat, rep, 0)
}

/// Exec computation of [`replace_all`].
pub fn replace_all_chars(v: &Vec<char>, pat: &Vec<char>, rep: &Vec<char>) -> (r: Vec<char>)
    requires
        pat@.len() > 0,
    ensures
        r@ == replace_all(v@, pat@, rep@),
{
    let mut out: Vec<char> = Vec::new();
    let mut i: usize = 0;
    while i < v.len()
        invariant
            0 <= i <= v@.len(),
            pat@.len() > 0,
            replace_all(v@, pat@, rep@) == out@ + replace_from(v@, pat@, rep@, i as int),
        decreases v@.len() - i,
    {
        if match_lit_vec(v, i, pat) {
            let ghost out0 = out@;
            let mut k: usize = 0;
            while k < rep.len()
                invariant
                    0 <= k <= rep@.len(),
                    out@ == out0 + rep@.subrange(0, k as int),
                decreases rep@.len() - k,
            {
                out.push(rep[k]);
                proof {
                    assert(out@ =~= out0 + rep@.subrange(0, k as int + 1));
                }
                k = k + 1;
            }
            proof {
                assert(out@ =~= out0 + rep@);
                assert(replace_from(v@, pat@, rep@, i as int) == rep@ + replace_from(
                    v@,
                    pat@,
                    rep@,
                    i as int + pat@.len(),
                ));
                assert((out0 + rep@) + replace_from(v@, pat@, rep@, i as int + pat@.len()) =~= out0
                    + (rep@ + replace_from(v@, pat@, rep@, i as int + pat@.len())));
            }
            i = i + pat.len();
        } else {
            let ghost out0 = out@;
            out.push(v[i]);
            proof {
                assert(replace_from(v@, pat@, rep@, i as int) == seq![v@[i as int]] + replace_from(
                    v@,
                    pat@,
                    rep@,
                    i as int + 1,
                ));
                assert((out0 + seq![v@[i as int]]) + replace_from(v@, pat@, rep@, i as int + 1)
                    =~= out0 + (seq![v@[i as int]] + replace_from(v@, pat@, rep@, i as int + 1)));
                assert(out@ =~= out0 + seq![v@[i as int]]);
            }
            i = i + 1;
        }
    }
    proof {
        assert(out@ + replace_from(v@, pat@, rep@, i as int) =~= out@);
    }
    out
}

/// A vector's length always fits in `usize`.
pub proof fn lemma_vec_len_bound(v: &Vec<char>)
    ensures
        v@.len() <= usize::MAX,
{
    assert(v.len() == v@.len());
}

/// The views of a sequence of character vectors.
pub open spec fn views_of(vs: Seq<Vec<char>>) -> Seq<Seq<char>> {
    vs.map_values(|x: Vec<char>| x@)
}

/// Pushing a vector corresponds to pushing its view.
pub proof fn lemma_views_push(vs: Seq<Vec<char>>, x: Vec<char>)
    ensures
        views_of(vs.push(x)) == views_of(vs).push(x@),
{
    assert(views_of(vs.push(x)) =~= views_of(vs).push(x@));
}

/// Exec equality test on character vectors.
pub fn chars_eq(a: &Vec<char>, b: &Vec<char>) -> (r: bool)
    ensures
        r == (a@ == b@),
{
    if a.len() != b.len() {
        proof {
            assert(a@.len() != b@.len());
        }
        return false;
    }
    let mut k: usize = 0;
    while k < a.len()
        invariant
            0 <= k <= a@.len(),
            a@.len() == b@.len(),
            forall|j: int| 0 <= j < k ==> a@[j] == b@[j],
        decreases a@.len() - k,
    {
        if a[k] != b[k] {
            return false;
        }
        k = k + 1;
    }
    proof {
        assert(a@ =~= b@);
    }
    true
}

/// Append the characters `v[i..j]` to `dst`.
pub fn append_range(dst: &mut Vec<char>, v: &Vec<char>, i: usize, j: usize)
    requires
        i <= j <= v@.len(),
    ensures
        final(dst)@ == old(dst)@ + v@.subrange(i as int, j as int),
{
    let ghost d0 = dst@;
    let mut k: usize = i;
    while k < j
        invariant
            i <= k <= j <= v@.len(),
            dst@ == d0 + v@.subrange(i as int, k as int),
        decreases j - k,
    {
        dst.push(v[k]);
        proof {
            assert(dst@ =~= d0 + v@.subrange(i as int, k as int + 1));
        }
        k = k + 1;
    }
}

/// The characters `v[i..j]` as a fresh vector.
pub fn copy_range(v: &Vec<char>, i: usize, j: usize) -> (r: Vec<char>)
    requires
        i <= j <= v@.len(),
    ensures
        r@ == v@.subrange(i as int, j as int),
{
    let mut r: Vec<char> = Vec::new();
    append_range(&mut r, v, i, j);
    proof {
        assert(r@ =~= v@.subrange(i as int, j as int));
    }
    r
}

/// Relies on str::chars, which yields the characters of the string in
/// order; collecting them gives the character sequence of `s`.
#[verifier::external_body]
pub(crate) fn chars_of(s: &str) -> (r: Vec<char>)
    ensures
        r@ == s@,
{
    s.chars().collect()
}

/// Relies on String's FromIterator over char, which concatenates the
/// characters of the iterator in order.
#[verifier::external_body]
pub(crate) fn string_from(v: &Vec<char>) -> (r: String)
    ensures
        r@ == v@,
{
    v.iter().collect()
}

} // verus!
