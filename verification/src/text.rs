//! How user-entered text is compared: topic names and quiz answers.
//!
//! Topic names are compared after trimming and Unicode lower-casing; answers
//! are compared after trimming, ignoring ASCII case only.

use vstd::prelude::*;

verus! {

/// Whether `c` has the Unicode `White_Space` property, which is what
/// `char::is_whitespace` reports and what `str::trim` strips.
pub uninterp spec fn white_space(c: char) -> bool;

/// The Unicode lower-case form of a string, as `str::to_lowercase` builds it.
pub uninterp spec fn lowercased(s: Seq<char>) -> Seq<char>;

/// Number of white-space characters at the front of `s`.
pub open spec fn leading_space(s: Seq<char>) -> nat
    decreases s.len(),
{
    if s.len() > 0 && white_space(s[0]) {
        1 + leading_space(s.drop_first())
    } else {
        0
    }
}

/// Number of white-space characters at the back of `s`.
pub open spec fn trailing_space(s: Seq<char>) -> nat
    decreases s.len(),
{
    if s.len() > 0 && white_space(s.last()) {
        1 + trailing_space(s.drop_last())
    } else {
        0
    }
}

/// `s` without its leading and trailing white space.
pub open spec fn trimmed(s: Seq<char>) -> Seq<char> {
    let rest = s.skip(leading_space(s) as int);
    rest.take(rest.len() - trailing_space(rest))
}

/// The leading white space of a string is white space, and what follows it
/// is not.
pub proof fn lemma_leading_space(s: Seq<char>)
    ensures
        leading_space(s) <= s.len(),
        forall|i: int| 0 <= i < leading_space(s) ==> white_space(#[trigger] s[i]),
        leading_space(s) < s.len() ==> !white_space(s[leading_space(s) as int]),
    decreases s.len(),
{
    if s.len() > 0 && white_space(s[0]) {
        let rest = s.drop_first();
        lemma_leading_space(rest);
        assert forall|i: int| 0 <= i < leading_space(s) implies white_space(#[trigger] s[i]) by {
            if i > 0 {
                assert(s[i] == rest[i - 1]);
            }
        }
        if leading_space(s) < s.len() {
            assert(s[leading_space(s) as int] == rest[leading_space(rest) as int]);
        }
    }
}

/// The trailing white space of a string is white space, and what precedes
/// it is not.
pub proof fn lemma_trailing_space(s: Seq<char>)
    ensures
        trailing_space(s) <= s.len(),
        forall|i: int| s.len() - trailing_space(s) <= i < s.len() ==> white_space(#[trigger] s[i]),
        trailing_space(s) < s.len() ==> !white_space(s[s.len() - trailing_space(s) - 1]),
    decreases s.len(),
{
    if s.len() > 0 && white_space(s.last()) {
        let rest = s.drop_last();
        lemma_trailing_space(rest);
        assert forall|i: int| s.len() - trailing_space(s) <= i < s.len() implies white_space(
            #[trigger] s[i],
        ) by {
            if i < s.len() - 1 {
                assert(s[i] == rest[i]);
            }
        }
        if trailing_space(s) < s.len() {
            assert(s[s.len() - trailing_space(s) - 1] == rest[rest.len() - trailing_space(rest)
                - 1]);
        }
    }
}

/// A trimmed string neither starts nor ends with white space, and trimming
/// it again changes nothing.
pub proof fn lemma_trimmed_is_bare(s: Seq<char>)
    ensures
        trimmed(s).len() > 0 ==> !white_space(trimmed(s).first()) && !white_space(
            trimmed(s).last(),
        ),
        trimmed(trimmed(s)) == trimmed(s),
{
    lemma_leading_space(s);
    let rest = s.skip(leading_space(s) as int);
    lemma_trailing_space(rest);
    let t = trimmed(s);
    if t.len() > 0 {
        assert(rest.len() > 0);
        assert(rest[0] == s[leading_space(s) as int]);
        assert(t.first() == rest[0]);
        assert(t.last() == rest[rest.len() - trailing_space(rest) - 1]);
        assert(leading_space(t) == 0);
        assert(trailing_space(t) == 0);
        assert(t.skip(0) =~= t);
        assert(t.take(t.len() as int) =~= t);
    } else {
        assert(leading_space(t) == 0);
        assert(t.skip(0) =~= t);
        assert(trailing_space(t) == 0);
        assert(t.take(0) =~= t);
    }
}

/// The ASCII lower-case form of one character: `'A'..='Z'` map to
/// `'a'..='z'`, everything else stays.
pub open spec fn ascii_lower(c: char) -> char {
    if 'A' <= c && c <= 'Z' {
        ((c as u8) + 32) as char
    } else {
        c
    }
}

/// `s` with every character replaced by its ASCII lower-case form.
pub open spec fn ascii_folded(s: Seq<char>) -> Seq<char> {
    s.map_values(|c: char| ascii_lower(c))
}

/// The form under which topic names are compared.
pub open spec fn normalized(s: Seq<char>) -> Seq<char> {
    lowercased(trimmed(s))
}

/// Two topic names denote the same topic.
pub open spec fn names_agree(a: Seq<char>, b: Seq<char>) -> bool {
    normalized(a) == normalized(b)
}

/// A given answer counts as the expected one.
pub open spec fn answers_agree(expected: Seq<char>, given: Seq<char>) -> bool {
    ascii_folded(trimmed(expected)) == ascii_folded(trimmed(given))
}

/// `str::trim`: the slice left after stripping leading and trailing
/// characters that have the `White_Space` property, so that what is left
/// neither starts nor ends with one.
#[verifier::external_body]
fn trim(s: &str) -> (r: &str)
    ensures
        r@ == trimmed(s@),
        r@.len() > 0 ==> !white_space(r@.first()) && !white_space(r@.last()),
{
    s.trim()
}

/// `str::to_lowercase`: the result is a function of the characters alone.
#[verifier::external_body]
fn to_lowercase(s: &str) -> (r: String)
    ensures
        r@ == lowercased(s@),
{
    s.to_lowercase()
}

/// `str::eq_ignore_ascii_case`: the same as comparing the two ASCII
/// lower-case forms.
#[verifier::external_body]
fn eq_ignore_ascii_case(a: &str, b: &str) -> (r: bool)
    ensures
        r == (ascii_folded(a@) == ascii_folded(b@)),
{
    a.eq_ignore_ascii_case(b)
}

/// Brings a topic name into the form under which names are compared.
pub fn normalize(s: &str) -> (r: String)
    ensures
        r@ == normalized(s@),
{
    to_lowercase(trim(s))
}

/// Whether two topic names denote the same topic: equal after trimming and
/// lower-casing.
pub fn names_match(a: &str, b: &str) -> (r: bool)
    ensures
        r == names_agree(a@, b@),
{
    let x = normalize(a);
    let y = normalize(b);
    x == y
}

/// Whether `given` counts as the answer `expected`: equal after trimming,
/// ignoring ASCII case.
pub fn answers_match(expected: &str, given: &str) -> (r: bool)
    ensures
        r == answers_agree(expected@, given@),
{
    eq_ignore_ascii_case(trim(expected), trim(given))
}

} // verus!
