//! Re-classification of stored documents after the document types change:
//! the decision whether a document's types changed.

use vstd::prelude::*;
use crate::text::{same_text, strs};

verus! {

/// Re-classifies every stored document and updates those whose types
/// changed.
pub struct AutoReindexer;

/// How often `x` occurs in `s`.
pub open spec fn occurrences(s: Seq<Seq<char>>, x: Seq<char>) -> nat
    decreases s.len(),
{
    if s.len() == 0 {
        0
    } else {
        occurrences(s.drop_last(), x) + if s.last() == x {
            1nat
        } else {
            0nat
        }
    }
}

/// The multiset of a sequence counts each element as often as it occurs.
proof fn lemma_multiset_occurrences(s: Seq<Seq<char>>, x: Seq<char>)
    ensures
        s.to_multiset().count(x) == occurrences(s, x),
    decreases s.len(),
{
    broadcast use vstd::seq_lib::group_to_multiset_ensures;

    if s.len() > 0 {
        lemma_multiset_occurrences(s.drop_last(), x);
        assert(s =~= s.drop_last().push(s.last()));
    }
}

/// The number of times `x` occurs in `v`.
fn count_of(v: &Vec<String>, x: &str) -> (n: usize)
    ensures
        n == occurrences(strs(v@), x@),
{
    let mut n: usize = 0;
    let mut i: usize = 0;
    while i < v.len()
        invariant
            i <= v@.len(),
            n == occurrences(strs(v@).take(i as int), x@),
            n <= i,
        decreases v@.len() - i,
    {
        proof {
            assert(strs(v@).take(i + 1).drop_last() =~= strs(v@).take(i as int));
            assert(strs(v@).take(i + 1).last() == v@[i as int]@);
        }
        if same_text(v[i].as_str(), x) {
            n = n + 1;
        }
        i = i + 1;
    }
    proof {
        assert(strs(v@).take(i as int) =~= strs(v@));
    }
    n
}

/// Every element of `a` occurs in `a` and `b` equally often.
fn counts_agree(a: &Vec<String>, b: &Vec<String>) -> (r: bool)
    ensures
        r == forall|i: int|
            0 <= i < a@.len() ==> occurrences(strs(a@), #[trigger] a@[i]@) == occurrences(
                strs(b@),
                a@[i]@,
            ),
{
    let mut i: usize = 0;
    while i < a.len()
        invariant
            i <= a@.len(),
            forall|k: int|
                0 <= k < i ==> occurrences(strs(a@), #[trigger] a@[k]@) == occurrences(strs(b@), a@[k]@),
        decreases a@.len() - i,
    {
        if count_of(a, a[i].as_str()) != count_of(b, a[i].as_str()) {
            return false;
        }
        i = i + 1;
    }
    true
}

impl AutoReindexer {
    /// Whether the types of a document changed: the new types are not the
    /// old ones up to order (as sorting both and comparing tells).
    pub fn types_changed(old: &Vec<String>, new: &Vec<String>) -> (r: bool)
        ensures
            r == (strs(old@).to_multiset() != strs(new@).to_multiset()),
    {
        let same = counts_agree(old, new) && counts_agree(new, old);
        proof {
            let a = strs(old@);
            let b = strs(new@);
            if same {
                assert forall|x: Seq<char>| a.to_multiset().count(x) == b.to_multiset().count(x) by {
                    lemma_multiset_occurrences(a, x);
                    lemma_multiset_occurrences(b, x);
                    broadcast use vstd::seq_lib::group_to_multiset_ensures;
                    if a.contains(x) {
                        let i = choose|i: int| 0 <= i < a.len() && a[i] == x;
                        assert(old@[i]@ == x);
                    } else if b.contains(x) {
                        let i = choose|i: int| 0 <= i < b.len() && b[i] == x;
                        assert(new@[i]@ == x);
                    } else {
                        assert(a.to_multiset().count(x) == 0);
                        assert(b.to_multiset().count(x) == 0);
                    }
                }
                assert(a.to_multiset() =~= b.to_multiset());
            } else {
                if a.to_multiset() == b.to_multiset() {
                    if !counts_agree_spec(old@, new@) {
                        let i = choose|i: int|
                            0 <= i < old@.len() && occurrences(a, #[trigger] old@[i]@) != occurrences(
                                b,
                                old@[i]@,
                            );
                        lemma_multiset_occurrences(a, old@[i]@);
                        lemma_multiset_occurrences(b, old@[i]@);
                    } else {
                        let i = choose|i: int|
                            0 <= i < new@.len() && occurrences(b, #[trigger] new@[i]@) != occurrences(
                                a,
                                new@[i]@,
                            );
                        lemma_multiset_occurrences(a, new@[i]@);
                        lemma_multiset_occurrences(b, new@[i]@);
                    }
                }
            }
        }
        !same
    }
}

/// Every element of `a` occurs in `a` and `b` equally often.
pub open spec fn counts_agree_spec(a: Seq<String>, b: Seq<String>) -> bool {
    forall|i: int| 0 <= i < a.len() ==> occurrences(strs(a), #[trigger] a[i]@) == occurrences(strs(b), a[i]@)
}

} // verus!
