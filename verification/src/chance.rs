//! Random draws, made by the `rand` crate.

use rand::distributions::{Distribution, WeightedIndex};
use vstd::arithmetic::power2::{lemma_pow2_strictly_increases, lemma_pow2_unfold, pow2};
use vstd::bits::lemma_usize_shl_is_mul;
use vstd::layout::unsigned_int_max_values;
use vstd::prelude::*;

verus! {

/// The sum of a list of weights.
pub open spec fn total_weight(weights: Seq<usize>) -> nat
    decreases weights.len(),
{
    if weights.len() == 0 {
        0
    } else {
        total_weight(weights.drop_last()) + weights.last() as nat
    }
}

/// Makes a `WeightedIndex` of the weights and draws one sample from it with
/// the generator that `thread_rng` hands out. `WeightedIndex::new` refuses an
/// empty list and a list of zeros, and adds the weights up in a `usize`.
/// What is drawn is the index of one of the weights; which one depends on
/// chance, so that two draws from the same weights may differ.
#[verifier::external_body]
pub(crate) fn weighted_index(weights: &Vec<usize>) -> (r: usize)
    requires
        weights@.len() > 0,
        0 < total_weight(weights@) <= usize::MAX,
    ensures
        r < weights@.len(),
{
    let mut rng = rand::thread_rng();
    let dist = WeightedIndex::new(weights).unwrap();
    dist.sample(&mut rng)
}

/// Draws a bit with `rand::random`. Nothing is known of the bit.
#[verifier::external_body]
pub(crate) fn random_bit() -> bool {
    rand::random::<bool>()
}

/// The weight of the position `exponent`: two to its power.
pub open spec fn weight_of(exponent: usize) -> usize {
    1usize << exponent
}

/// `weights` holds the weight of each of `exponents`, which rise strictly
/// and stay below `bound`.
pub open spec fn weights_of(weights: Seq<usize>, exponents: Seq<usize>, bound: nat) -> bool {
    &&& weights.len() == exponents.len()
    &&& forall|k: int| 0 <= k < weights.len() ==> #[trigger] weights[k] == weight_of(exponents[k])
    &&& forall|k: int| 0 <= k < exponents.len() ==> #[trigger] exponents[k] < bound
    &&& forall|j: int, k: int|
        0 <= j < k < exponents.len() ==> #[trigger] exponents[j] < #[trigger] exponents[k]
}

/// A weight is a power of two, as long as the power fits a machine word.
pub proof fn lemma_weight_is_pow2(exponent: usize)
    requires
        exponent < usize::BITS,
    ensures
        weight_of(exponent) == pow2(exponent as nat),
        weight_of(exponent) > 0,
{
    unsigned_int_max_values();
    lemma_pow2_strictly_increases(exponent as nat, usize::BITS as nat);
    lemma_usize_shl_is_mul(1, exponent);
    vstd::arithmetic::power2::lemma_pow2_pos(exponent as nat);
}

/// The weights of positions that rise strictly and stay below `bound` add
/// up to less than two to the power of `bound`.
pub proof fn lemma_total_weight(weights: Seq<usize>, exponents: Seq<usize>, bound: nat)
    requires
        weights_of(weights, exponents, bound),
        bound <= usize::BITS,
    ensures
        total_weight(weights) < pow2(bound),
        weights.len() > 0 ==> total_weight(weights) > 0,
        total_weight(weights) <= usize::MAX,
    decreases weights.len(),
{
    unsigned_int_max_values();
    if bound < usize::BITS {
        lemma_pow2_strictly_increases(bound, usize::BITS as nat);
    }
    if weights.len() == 0 {
        vstd::arithmetic::power2::lemma_pow2_pos(bound);
    } else {
        let last = exponents.last();
        assert(exponents[exponents.len() - 1] < bound);
        assert(weights_of(weights.drop_last(), exponents.drop_last(), last as nat)) by {
            assert forall|k: int| 0 <= k < exponents.drop_last().len() implies (
            #[trigger] exponents.drop_last()[k]) < last by {
                assert(exponents[k] < exponents[exponents.len() - 1]);
            }
        }
        lemma_total_weight(weights.drop_last(), exponents.drop_last(), last as nat);
        lemma_weight_is_pow2(last);
        assert(weights[weights.len() - 1] == weight_of(exponents[weights.len() - 1]));
        lemma_pow2_unfold((last + 1) as nat);
        if last + 1 < bound {
            lemma_pow2_strictly_increases((last + 1) as nat, bound);
        }
    }
}

} // verus!
