//! Small verified helpers on strings, stated over their character sequences.

use vstd::prelude::*;
use vstd::string::*;

verus! {

/// `prefix` is an initial segment of `s`.
pub open spec fn spec_starts_with(s: Seq<char>, prefix: Seq<char>) -> bool {
    prefix.len() <= s.len() && s.subrange(0, prefix.len() as int) == prefix
}

/// Tells whether `s` begins with `prefix`, character by character.
pub fn starts_with(s: &str, prefix: &str) -> (r: bool)
    ensures
        r == spec_starts_with(s@, prefix@),
{
    let n: usize = s.unicode_len();
    let m: usize = prefix.unicode_len();
    if m > n {
        return false;
    }
    let mut i: usize = 0;
    while i < m
        invariant
            i <= m,
            m <= n,
            n == s@.len(),
            m == prefix@.len(),
            forall|j: int| 0 <= j < i ==> s@[j] == prefix@[j],
        decreases m - i,
    {
        if s.get_char(i) != prefix.get_char(i) {
            assert(s@.subrange(0, m as int)[i as int] != prefix@[i as int]);
            return false;
        }
        i += 1;
    }
    assert(s@.subrange(0, m as int) =~= prefix@);
    true
}

/// An optional string seen as an optional character sequence.
pub open spec fn opt_view(o: Option<String>) -> Option<Seq<char>> {
    match o {
        Some(s) => Some(s@),
        None => None,
    }
}

/// A list of strings seen as a sequence of character sequences.
pub open spec fn strs_view(v: Seq<String>) -> Seq<Seq<char>> {
    v.map_values(|s: String| s@)
}

/// Whether two strings hold the same characters.
pub fn same_text(a: &str, b: &str) -> (r: bool)
    ensures
        r == (a@ == b@),
{
    String::from_str(a) == String::from_str(b)
}

/// The pieces of `s` between occurrences of `sep`: one more piece than there
/// are separators, empty pieces included.
pub open spec fn spec_split(s: Seq<char>, sep: char) -> Seq<Seq<char>>
    decreases s.len(),
{
    if s.len() == 0 {
        seq![Seq::<char>::empty()]
    } else {
        let before = spec_split(s.drop_last(), sep);
        if s.last() == sep {
            before.push(Seq::<char>::empty())
        } else {
            before.update(before.len() - 1, before.last().push(s.last()))
        }
    }
}

/// Calls `str::split` with a `char` as the pattern and copies the pieces.
/// The contract states what the standard library documents: the pieces are
/// the stretches between separators, in order, empty ones included.
#[verifier::external_body]
pub(crate) fn split(s: &str, sep: char) -> (parts: Vec<String>)
    ensures
        strs_view(parts@) == spec_split(s@, sep),
{
    s.split(sep).map(|piece| piece.to_string()).collect()
}

/// `needle` occurs in `haystack` as a run of consecutive characters.
pub open spec fn spec_contains(haystack: Seq<char>, needle: Seq<char>) -> bool {
    exists|i: int|
        0 <= i && i + needle.len() <= haystack.len() && #[trigger] haystack.subrange(i, i + needle.len())
            == needle
}

/// Calls `str::contains` with a string as the pattern. The contract states
/// what the standard library documents: whether the pattern matches a
/// sub-slice of the string.
#[verifier::external_body]
pub(crate) fn contains(haystack: &str, needle: &str) -> (r: bool)
    ensures
        r == spec_contains(haystack@, needle@),
{
    haystack.contains(needle)
}

/// The lowercase form of a text, as the standard library's Unicode tables
/// give it.
pub uninterp spec fn lowercased(s: Seq<char>) -> Seq<char>;

/// Calls `str::to_lowercase`. The contract only gives the answer its name.
#[verifier::external_body]
pub(crate) fn lowercase(s: &str) -> (r: String)
    ensures
        r@ == lowercased(s@),
{
    s.to_lowercase()
}

/// Whether `a` comes before `b` in dictionary order, character by character
/// by code point; a proper prefix comes before what it is a prefix of.
pub open spec fn lex_less(a: Seq<char>, b: Seq<char>) -> bool
    decreases a.len(),
{
    if b.len() == 0 {
        false
    } else if a.len() == 0 {
        true
    } else if a[0] != b[0] {
        (a[0] as u32) < (b[0] as u32)
    } else {
        lex_less(a.drop_first(), b.drop_first())
    }
}

/// Dictionary order never has two texts each before the other, and never a
/// text before itself.
pub proof fn lemma_lex_asymmetric(a: Seq<char>, b: Seq<char>)
    ensures
        !(lex_less(a, b) && lex_less(b, a)),
        a == b ==> !lex_less(a, b),
    decreases a.len(),
{
    if a.len() > 0 && b.len() > 0 && a[0] == b[0] {
        lemma_lex_asymmetric(a.drop_first(), b.drop_first());
    }
}

/// Of two different texts one comes before the other.
pub proof fn lemma_lex_total(a: Seq<char>, b: Seq<char>)
    ensures
        a == b || lex_less(a, b) || lex_less(b, a),
    decreases a.len(),
{
    if a.len() > 0 && b.len() > 0 {
        if a[0] == b[0] {
            lemma_lex_total(a.drop_first(), b.drop_first());
            if a.drop_first() == b.drop_first() {
                assert(a =~= seq![a[0]] + a.drop_first());
                assert(b =~= seq![b[0]] + b.drop_first());
            }
        } else {
            vstd::utf8::char_u32_cast(a[0], a[0] as u32);
            vstd::utf8::char_u32_cast(b[0], b[0] as u32);
        }
    } else if a.len() == 0 && b.len() == 0 {
        assert(a =~= b);
    }
}

/// Dictionary order is transitive.
pub proof fn lemma_lex_transitive(a: Seq<char>, b: Seq<char>, c: Seq<char>)
    requires
        lex_less(a, b),
        lex_less(b, c),
    ensures
        lex_less(a, c),
    decreases a.len(),
{
    if a.len() > 0 && b.len() > 0 && c.len() > 0 && a[0] == b[0] && b[0] == c[0] {
        lemma_lex_transitive(a.drop_first(), b.drop_first(), c.drop_first());
    }
}

} // verus!
