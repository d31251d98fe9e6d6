//! Ordering of texts.

use vstd::prelude::*;
use std::cmp::Ordering;
use crate::text::{lemma_lex_asymmetric, lemma_lex_total, lemma_lex_transitive, lex_less};

verus! {

/// How one thing stands to another in an order.
#[derive(Debug, Clone, Copy, PartialEq, Eq, Structural)]
pub enum Precedence {
    Less,
    Equal,
    Greater,
}

/// How `a` stands to `b` in dictionary order.
pub open spec fn spec_compare_text(a: Seq<char>, b: Seq<char>) -> Precedence {
    if a == b {
        Precedence::Equal
    } else if lex_less(a, b) {
        Precedence::Less
    } else {
        Precedence::Greater
    }
}

/// Calls `str::cmp`. The contract states what the standard library
/// documents: strings are ordered as sequences of bytes, which for UTF-8 is
/// the order of their characters' code points.
#[verifier::external_body]
pub(crate) fn compare_text(a: &str, b: &str) -> (r: Precedence)
    ensures
        r == spec_compare_text(a@, b@),
{
    match a.cmp(b) {
        Ordering::Less => Precedence::Less,
        Ordering::Equal => Precedence::Equal,
        Ordering::Greater => Precedence::Greater,
    }
}

/// Where one text comes after another, the other comes before it.
pub proof fn lemma_compare_text_flips(a: Seq<char>, b: Seq<char>)
    ensures
        spec_compare_text(a, b) == Precedence::Greater <==> spec_compare_text(b, a) == Precedence::Less,
        spec_compare_text(a, b) == Precedence::Equal <==> a == b,
{
    lemma_lex_total(a, b);
    lemma_lex_asymmetric(a, b);
    lemma_lex_asymmetric(b, a);
}

/// Not coming after is transitive.
pub proof fn lemma_compare_text_chains(a: Seq<char>, b: Seq<char>, c: Seq<char>)
    requires
        spec_compare_text(a, b) != Precedence::Greater,
        spec_compare_text(b, c) != Precedence::Greater,
    ensures
        spec_compare_text(a, c) != Precedence::Greater,
{
    if a != b && b != c {
        lemma_lex_transitive(a, b, c);
    }
}

} // verus!
