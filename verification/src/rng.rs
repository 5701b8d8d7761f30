//! Randomness for the search: a shuffled digit ordering and a random
//! cell coordinate. The calls into the rand crate stand behind trusted
//! wrappers; everything derived from their results is verified.

use vstd::prelude::*;
use vstd::seq_lib::group_to_multiset_ensures;
use rand::Rng;
use rand::seq::SliceRandom;

verus! {

/// Relies on rand's SliceRandom::shuffle: it permutes the slice in
/// place (Fisher-Yates swaps), so the multiset of elements is
/// unchanged. Which permutation comes out depends on the thread-local
/// generator, so nothing more is stated.
#[verifier::external_body]
fn shuffle_digits(nums: &mut Vec<u8>)
    ensures
        final(nums)@.to_multiset() == old(nums)@.to_multiset(),
{
    nums.shuffle(&mut rand::thread_rng());
}

/// Relies on rand's Rng::gen_range: on the non-empty range `0..9` it
/// returns a value of that range and does not panic.
#[verifier::external_body]
pub(crate) fn random_index() -> (r: usize)
    ensures
        r < 9,
{
    rand::thread_rng().gen_range(0..9)
}

/// The digits 1 through 9 in a random order: each digit appears
/// exactly once.
pub(crate) fn shuffled_digits() -> (nums: Vec<u8>)
    ensures
        nums@.len() == 9,
        nums@.no_duplicates(),
        forall|k: int| 0 <= k < 9 ==> 1 <= #[trigger] nums@[k] <= 9,
        forall|d: u8| 1 <= d <= 9 ==> nums@.contains(d),
{
    let mut nums: Vec<u8> = Vec::new();
    let mut d: u8 = 1;
    while d <= 9
        invariant
            1 <= d <= 10,
            nums@.len() == d - 1,
            forall|k: int| 0 <= k < d - 1 ==> #[trigger] nums@[k] == k + 1,
        decreases 10 - d,
    {
        nums.push(d);
        d += 1;
    }
    let ghost before = nums@;
    assert(before.no_duplicates());
    shuffle_digits(&mut nums);
    proof {
        broadcast use group_to_multiset_ensures;

        before.lemma_multiset_has_no_duplicates();
        vstd::seq_lib::to_multiset_len(nums@);
        vstd::seq_lib::to_multiset_len(before);
        assert(nums@.len() == before.len());
        assert forall|k: int| 0 <= k < 9 implies 1 <= #[trigger] nums@[k] <= 9 by {
            let x = nums@[k];
            vstd::seq_lib::to_multiset_contains(nums@, x);
            vstd::seq_lib::to_multiset_contains(before, x);
            assert(nums@.contains(x));
            assert(before.contains(x));
            let k0 = choose|k0: int| 0 <= k0 < before.len() && before[k0] == x;
            assert(before[k0] == k0 + 1);
        }
        assert forall|d: u8| 1 <= d <= 9 implies nums@.contains(d) by {
            vstd::seq_lib::to_multiset_contains(nums@, d);
            vstd::seq_lib::to_multiset_contains(before, d);
            assert(before[d - 1] == d);
            assert(before.contains(d));
        }
        assert forall|x: u8|
            nums@.to_multiset().contains(x) implies nums@.to_multiset().count(x) == 1 by {
            assert(before.to_multiset().contains(x));
        }
        nums@.lemma_multiset_has_no_duplicates_conv();
    }
    nums
}

} // verus!
