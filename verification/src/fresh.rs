//! Finding an id that is not in use.

use vstd::prelude::*;
use vstd::set_lib::lemma_len_subset;

verus! {

/// Whether `id` is the least number that `taken` does not hold.
pub open spec fn is_least_free(taken: Seq<u128>, id: u128) -> bool {
    &&& !taken.contains(id)
    &&& forall|k: u128| k < id ==> #[trigger] taken.contains(k)
}

/// A sequence that holds each of the first `n` numbers has `n` items at
/// least.
pub proof fn lemma_first_numbers_counted(taken: Seq<u128>, n: nat)
    requires
        n <= u128::MAX,
        forall|k: u128| k < n ==> #[trigger] taken.contains(k),
    ensures
        n <= taken.len(),
{
    let firsts = Seq::new(n, |k: int| k as u128);
    assert(firsts.no_duplicates());
    firsts.unique_seq_to_set();
    assert(firsts.to_set().subset_of(taken.to_set())) by {
        assert forall|id: u128| firsts.to_set().contains(id) implies taken.to_set().contains(id) by {
            let k = choose|k: int| 0 <= k < firsts.len() && firsts[k] == id;
            assert(taken.contains(k as u128));
        }
    }
    vstd::seq_lib::seq_to_set_is_finite(taken);
    lemma_len_subset(firsts.to_set(), taken.to_set());
    taken.lemma_cardinality_of_set();
}

/// Whether `taken` holds `id`.
fn holds(taken: &Vec<u128>, id: u128) -> (found: bool)
    ensures
        found == taken@.contains(id),
{
    let mut i: usize = 0;
    while i < taken.len()
        invariant
            0 <= i <= taken.len(),
            forall|k: int| 0 <= k < i ==> taken@[k] != id,
        decreases taken.len() - i,
    {
        if taken[i] == id {
            return true;
        }
        i = i + 1;
    }
    false
}

/// The least number that `taken` does not hold.
pub fn least_free(taken: &Vec<u128>) -> (id: u128)
    ensures
        is_least_free(taken@, id),
{
    let mut candidate: u128 = 0;
    while holds(taken, candidate)
        invariant
            candidate <= taken.len(),
            forall|k: u128| k < candidate ==> #[trigger] taken@.contains(k),
        decreases taken.len() - candidate,
    {
        proof {
            assert forall|k: u128| k < candidate + 1 implies #[trigger] taken@.contains(k) by {}
            lemma_first_numbers_counted(taken@, (candidate + 1) as nat);
        }
        candidate = candidate + 1;
    }
    candidate
}

} // verus!
