//! The order in which paths are listed.
//!
//! Paths are ordered as texts are in a dictionary, character by character:
//! the first character in which two paths differ decides, and a path comes
//! before every longer path that starts with it.

use vstd::prelude::*;
use vstd::relations::{sorted_by, total_ordering};
use vstd::seq_lib::{lemma_sorted_unique, to_multiset_len};

verus! {

/// `a` comes before `b` in the dictionary, or is `b`.
pub open spec fn lex_le(a: Seq<char>, b: Seq<char>) -> bool
    decreases a.len(),
{
    if a.len() == 0 {
        true
    } else if b.len() == 0 {
        false
    } else if a[0] != b[0] {
        a[0] < b[0]
    } else {
        lex_le(a.skip(1), b.skip(1))
    }
}

/// Each path of `paths` comes no later in the dictionary than those behind
/// it.
pub open spec fn sorted(paths: Seq<Seq<char>>) -> bool {
    forall|i: int, j: int| 0 <= i < j < paths.len() ==> lex_le(paths[i], paths[j])
}

/// Every text comes no later than itself.
pub proof fn lemma_lex_le_reflexive(a: Seq<char>)
    ensures
        lex_le(a, a),
    decreases a.len(),
{
    if a.len() > 0 {
        lemma_lex_le_reflexive(a.skip(1));
    }
}

/// Of two texts, one comes no later than the other.
pub proof fn lemma_lex_le_total(a: Seq<char>, b: Seq<char>)
    ensures
        lex_le(a, b) || lex_le(b, a),
    decreases a.len(),
{
    if a.len() > 0 && b.len() > 0 && a[0] == b[0] {
        lemma_lex_le_total(a.skip(1), b.skip(1));
    }
}

/// Two texts that each come no later than the other are the same text.
pub proof fn lemma_lex_le_antisymmetric(a: Seq<char>, b: Seq<char>)
    requires
        lex_le(a, b),
        lex_le(b, a),
    ensures
        a == b,
    decreases a.len(),
{
    if a.len() == 0 || b.len() == 0 {
        assert(a =~= b);
    } else {
        lemma_lex_le_antisymmetric(a.skip(1), b.skip(1));
        assert(a =~= seq![a[0]] + a.skip(1));
        assert(b =~= seq![b[0]] + b.skip(1));
    }
}

/// What comes no later than a text comes no later than what follows that
/// text.
pub proof fn lemma_lex_le_transitive(a: Seq<char>, b: Seq<char>, c: Seq<char>)
    requires
        lex_le(a, b),
        lex_le(b, c),
    ensures
        lex_le(a, c),
    decreases a.len(),
{
    if a.len() > 0 && b.len() > 0 && c.len() > 0 && a[0] == b[0] && b[0] == c[0] {
        lemma_lex_le_transitive(a.skip(1), b.skip(1), c.skip(1));
    }
}

/// The dictionary order, as a relation.
pub open spec fn dictionary_order() -> spec_fn(Seq<char>, Seq<char>) -> bool {
    |a: Seq<char>, b: Seq<char>| lex_le(a, b)
}

/// The dictionary order is a total order.
pub proof fn lemma_lex_le_is_total_order()
    ensures
        total_ordering(dictionary_order()),
{
    let leq = dictionary_order();
    assert forall|a: Seq<char>| #[trigger] leq(a, a) by {
        lemma_lex_le_reflexive(a);
    }
    assert forall|a: Seq<char>, b: Seq<char>| #[trigger] leq(a, b) && #[trigger] leq(b, a) implies a
        == b by {
        lemma_lex_le_antisymmetric(a, b);
    }
    assert forall|a: Seq<char>, b: Seq<char>, c: Seq<char>| #[trigger]
        leq(a, b) && #[trigger] leq(b, c) implies leq(a, c) by {
        lemma_lex_le_transitive(a, b, c);
    }
    assert forall|a: Seq<char>, b: Seq<char>| #[trigger] leq(a, b) || #[trigger] leq(b, a) by {
        lemma_lex_le_total(a, b);
    }
}

/// A collection of paths has one sorted listing only: two sorted listings
/// that hold the same paths, each as often as the other, are the same
/// listing.
pub proof fn lemma_sorted_listing_is_unique(x: Seq<Seq<char>>, y: Seq<Seq<char>>)
    requires
        sorted(x),
        sorted(y),
        x.to_multiset() == y.to_multiset(),
    ensures
        x == y,
{
    let leq = dictionary_order();
    lemma_lex_le_is_total_order();
    assert(sorted_by(x, leq));
    assert(sorted_by(y, leq));
    lemma_sorted_unique(x, y, leq);
}

/// The sorted listing of `paths`: the same paths, each as often, in the
/// order of the dictionary.
pub open spec fn listing(paths: Seq<Seq<char>>) -> Seq<Seq<char>> {
    paths.sort_by(dictionary_order())
}

/// The sorted listing is sorted and holds what was listed.
pub proof fn lemma_listing(paths: Seq<Seq<char>>)
    ensures
        sorted(listing(paths)),
        listing(paths).to_multiset() == paths.to_multiset(),
        listing(paths).len() == paths.len(),
{
    let leq = dictionary_order();
    let listed = listing(paths);
    lemma_lex_le_is_total_order();
    paths.lemma_sort_by_ensures(leq);
    assert forall|i: int, j: int| 0 <= i < j < listed.len() implies lex_le(
        listed[i],
        listed[j],
    ) by {
        assert(leq(listed[i], listed[j]));
    }
    to_multiset_len(listed);
    to_multiset_len(paths);
}

/// What is sorted and holds what was listed is the sorted listing.
pub proof fn lemma_listing_is_unique(paths: Seq<Seq<char>>, sorted_paths: Seq<Seq<char>>)
    requires
        sorted(sorted_paths),
        sorted_paths.to_multiset() == paths.to_multiset(),
    ensures
        sorted_paths == listing(paths),
{
    lemma_listing(paths);
    lemma_sorted_listing_is_unique(sorted_paths, listing(paths));
}

/// Whether `a` comes before `b` in the dictionary, or is `b`.
pub fn le(a: &Vec<char>, b: &Vec<char>) -> (r: bool)
    ensures
        r == lex_le(a@, b@),
{
    let mut i: usize = 0;
    proof {
        assert(a@.skip(0) =~= a@);
        assert(b@.skip(0) =~= b@);
    }
    while i < a.len() && i < b.len()
        invariant
            i <= a.len(),
            i <= b.len(),
            lex_le(a@, b@) == lex_le(a@.skip(i as int), b@.skip(i as int)),
        decreases a.len() - i,
    {
        let x = a[i];
        let y = b[i];
        if x != y {
            return x < y;
        }
        proof {
            assert(a@.skip(i as int).skip(1) =~= a@.skip(i + 1));
            assert(b@.skip(i as int).skip(1) =~= b@.skip(i + 1));
        }
        i += 1;
    }
    i == a.len()
}

} // verus!
