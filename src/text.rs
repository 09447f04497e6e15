//! Character-level helpers shared by the tokenizer.
use vstd::prelude::*;

verus! {

/// Relies on `str::chars` (collected into a `Vec`): the characters of `s`, in order.
#[verifier::external_body]
pub(crate) fn chars_of(s: &str) -> (r: Vec<char>)
    ensures
        r@ == s@,
{
    s.chars().collect()
}

/// Relies on `String: FromIterator<char>`: the string made of the characters of `v`, in order.
#[verifier::external_body]
pub(crate) fn string_of(v: &Vec<char>) -> (r: String)
    ensures
        r@ == v@,
{
    v.iter().collect()
}

/// Whether `a` and `b` hold the same characters.
pub fn same_chars(a: &[char], b: &[char]) -> (r: bool)
    ensures
        r == (a@ == b@),
{
    if a.len() != b.len() {
        return false;
    }
    let mut i: usize = 0;
    while i < a.len()
        invariant
            a@.len() == b@.len(),
            0 <= i <= a@.len(),
            forall|j: int| 0 <= j < i ==> a@[j] == b@[j],
        decreases a@.len() - i,
    {
        if a[i] != b[i] {
            return false;
        }
        i = i + 1;
    }
    assert(a@ =~= b@);
    true
}

/// The character sequences held by a vector of strings.
pub open spec fn strings_view(v: Seq<String>) -> Seq<Seq<char>> {
    v.map_values(|w: String| w@)
}

/// The lines of a text, without their line endings, as `str::lines` gives them.
pub uninterp spec fn lines_of(s: Seq<char>) -> Seq<Seq<char>>;

/// The runs of non-whitespace characters of a text, as `str::split_whitespace`
/// gives them.
pub uninterp spec fn words_of(s: Seq<char>) -> Seq<Seq<char>>;

/// Relies on `str::lines`: the lines of `s`, in order, without their line
/// endings.
#[verifier::external_body]
pub(crate) fn split_lines(s: &str) -> (r: Vec<String>)
    ensures
        strings_view(r@) == lines_of(s@),
{
    s.lines().map(|l| l.to_string()).collect()
}

/// Relies on `str::split_whitespace`: the runs of non-whitespace characters of
/// `s`, in order; the documentation promises that none is empty.
#[verifier::external_body]
pub(crate) fn split_words(s: &str) -> (r: Vec<String>)
    ensures
        strings_view(r@) == words_of(s@),
        forall|i: int| 0 <= i < r@.len() ==> r@[i]@.len() > 0,
{
    s.split_whitespace().map(|w| w.to_string()).collect()
}

/// Whether `s` holds exactly the characters of `w`.
pub fn spells(s: &[char], w: &str) -> (r: bool)
    ensures
        r == (s@ == w@),
{
    let t = chars_of(w);
    same_chars(s, t.as_slice())
}

} // verus!
