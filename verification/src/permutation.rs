//! A permutation of `0..n` that is reshuffled in place.

use rand::seq::SliceRandom;
use vstd::prelude::*;
use vstd::seq_lib::seq_to_set_is_finite;
use vstd::set_lib::{lemma_int_range, lemma_subset_equality, set_int_range};

verus! {

/// Every slot holds an index below the length, no index occurs twice and none
/// is missing.
pub open spec fn is_bijection(s: Seq<usize>) -> bool {
    &&& forall|i: int| 0 <= i < s.len() ==> s[i] < s.len()
    &&& s.no_duplicates()
    &&& forall|v: usize| v < s.len() ==> s.contains(v)
}

/// The permutation that maps every index to itself.
pub open spec fn identity_slots(n: nat) -> Seq<usize> {
    Seq::new(n, |i: int| i as usize)
}

/// A sequence of `n` distinct indices below `n` leaves no index out.
pub proof fn lemma_distinct_indices_fill_the_range(s: Seq<usize>)
    requires
        forall|i: int| 0 <= i < s.len() ==> s[i] < s.len(),
        s.no_duplicates(),
    ensures
        is_bijection(s),
{
    let n = s.len() as int;
    let t = Seq::new(s.len(), |i: int| s[i] as int);
    let range = set_int_range(0, n);
    assert(t.no_duplicates());
    t.unique_seq_to_set();
    seq_to_set_is_finite(t);
    lemma_int_range(0, n);
    assert forall|x: int| t.to_set().contains(x) implies range.contains(x) by {
        let i = choose|i: int| 0 <= i < t.len() && t[i] == x;
        assert(t[i] == s[i]);
    }
    lemma_subset_equality(t.to_set(), range);
    assert forall|v: usize| v < s.len() implies s.contains(v) by {
        assert(range.contains(v as int));
        assert(t.contains(v as int));
        let i = choose|i: int| 0 <= i < t.len() && t[i] == v as int;
        assert(s[i] == v);
    }
}

/// Rearranging a bijection gives a bijection.
pub proof fn lemma_rearranged_bijection(before: Seq<usize>, after: Seq<usize>)
    requires
        is_bijection(before),
        after.to_multiset() == before.to_multiset(),
    ensures
        is_bijection(after),
        after.len() == before.len(),
{
    before.to_multiset_ensures();
    after.to_multiset_ensures();
    before.lemma_multiset_has_no_duplicates();
    after.lemma_multiset_has_no_duplicates_conv();
    assert forall|i: int| 0 <= i < after.len() implies after[i] < after.len() by {
        assert(after.contains(after[i]));
        assert(before.to_multiset().count(after[i]) > 0);
        assert(before.contains(after[i]));
    }
    assert forall|v: usize| v < after.len() implies after.contains(v) by {
        assert(before.contains(v));
        assert(after.to_multiset().count(v) > 0);
    }
}

/// Shuffles `slots` in place with `rand`'s `SliceRandom::shuffle`, drawing from
/// the thread-local generator. The order that comes out is random; what is
/// claimed is only that the call swaps elements, so the slots hold the same
/// values as before, each as often as before.
#[verifier::external_body]
fn shuffle_slots(slots: &mut Vec<usize>)
    ensures
        final(slots)@.to_multiset() == old(slots)@.to_multiset(),
{
    slots.shuffle(&mut rand::thread_rng());
}

/// A permutation of `0..n`, held as the index that each slot maps to.
pub struct IndexPermutation {
    slots: Vec<usize>,
}

impl View for IndexPermutation {
    type V = Seq<usize>;

    closed spec fn view(&self) -> Seq<usize> {
        self.slots@
    }
}

impl IndexPermutation {
    /// The permutation is a bijection on `0..n`, `n` being its length.
    pub open spec fn wf(&self) -> bool {
        is_bijection(self@)
    }

    /// The identity on `0..n`.
    pub fn identity(n: usize) -> (p: Self)
        ensures
            p.wf(),
            p@ == identity_slots(n as nat),
    {
        let mut slots: Vec<usize> = Vec::new();
        let mut i: usize = 0;
        while i < n
            invariant
                i <= n,
                slots@ == identity_slots(i as nat),
            decreases n - i,
        {
            slots.push(i);
            i = i + 1;
            assert(slots@ =~= identity_slots(i as nat));
        }
        proof {
            lemma_distinct_indices_fill_the_range(slots@);
        }
        IndexPermutation { slots }
    }

    /// Takes `slots` as a permutation if it is one, and refuses it otherwise.
    pub fn from_slots(slots: Vec<usize>) -> (p: Option<Self>)
        ensures
            p is Some <==> is_bijection(slots@),
            p matches Some(q) ==> q@ == slots@ && q.wf(),
    {
        let n = slots.len();
        let mut seen: Vec<bool> = Vec::new();
        let mut k: usize = 0;
        while k < n
            invariant
                k <= n,
                seen@.len() == k,
                forall|v: int| 0 <= v < k ==> !seen@[v],
            decreases n - k,
        {
            seen.push(false);
            k = k + 1;
        }
        let mut i: usize = 0;
        while i < n
            invariant
                i <= n,
                n == slots@.len(),
                seen@.len() == n,
                forall|j: int| 0 <= j < i ==> slots@[j] < n,
                forall|j: int, l: int| 0 <= j < l < i ==> slots@[j] != slots@[l],
                forall|v: int|
                    0 <= v < n ==> (seen@[v] <==> exists|j: int|
                        0 <= j < i && #[trigger] slots@[j] == v),
            decreases n - i,
        {
            let v = slots[i];
            if v >= n {
                return None;
            }
            if seen[v] {
                proof {
                    let j = choose|j: int| 0 <= j < i && #[trigger] slots@[j] == v;
                    assert(slots@[j] == slots@[i as int] && j != i);
                }
                return None;
            }
            seen.set(v, true);
            proof {
                let ghost_i = i as int;
                assert forall|w: int| 0 <= w < n implies (seen@[w] <==> exists|j: int|
                    0 <= j < ghost_i + 1 && #[trigger] slots@[j] == w) by {
                    if w == v {
                        assert(slots@[ghost_i] == w);
                    } else if seen@[w] {
                        let j = choose|j: int| 0 <= j < ghost_i && #[trigger] slots@[j] == w;
                        assert(0 <= j < ghost_i + 1 && slots@[j] == w);
                    } else {
                        if exists|j: int| 0 <= j < ghost_i + 1 && #[trigger] slots@[j] == w {
                            let j = choose|j: int|
                                0 <= j < ghost_i + 1 && #[trigger] slots@[j] == w;
                            assert(j != ghost_i);
                            assert(0 <= j < ghost_i && slots@[j] == w);
                        }
                    }
                }
            }
            i = i + 1;
        }
        proof {
            assert(slots@.no_duplicates()) by {
                assert forall|j: int, l: int|
                    0 <= j < slots@.len() && 0 <= l < slots@.len() && j != l implies slots@[j]
                    != slots@[l] by {
                    if j < l {
                        assert(slots@[j] != slots@[l]);
                    } else {
                        assert(slots@[l] != slots@[j]);
                    }
                }
            }
            lemma_distinct_indices_fill_the_range(slots@);
        }
        Some(IndexPermutation { slots })
    }

    /// The number of slots.
    pub fn len(&self) -> (n: usize)
        ensures
            n == self@.len(),
    {
        self.slots.len()
    }

    /// The index that slot `g` maps to.
    pub fn slot(&self, g: usize) -> (index: usize)
        requires
            self.wf(),
            g < self@.len(),
        ensures
            index == self@[g as int],
            index < self@.len(),
    {
        self.slots[g]
    }

    /// The slots in order.
    pub fn as_vec(&self) -> (slots: &Vec<usize>)
        ensures
            slots@ == self@,
    {
        &self.slots
    }

    /// Rearranges the slots at random. Whatever order comes out, the result is
    /// again a bijection on the same range and holds the same indices.
    pub fn reshuffle(&mut self)
        requires
            old(self).wf(),
        ensures
            final(self).wf(),
            final(self)@.len() == old(self)@.len(),
            final(self)@.to_multiset() == old(self)@.to_multiset(),
    {
        shuffle_slots(&mut self.slots);
        proof {
            lemma_rearranged_bijection(old(self)@, self@);
        }
    }
}

} // verus!
