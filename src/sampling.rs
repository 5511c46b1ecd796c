//! Weighted index distributions, drawn with the alias method of `rand`.
use rand::distributions::weighted::alias_method::WeightedIndex;
use rand::distributions::Distribution;
use vstd::prelude::*;

verus! {

/// An alias table over the indices `0..n`, each drawn with probability
/// proportional to its weight.
#[verifier::external_body]
pub struct AliasTable {
    inner: WeightedIndex<u64>,
}

/// The weights that an alias table was built from, one per index.
pub uninterp spec fn alias_weights(d: AliasTable) -> Seq<u64>;

/// Whether `rand`'s alias method accepts this weight list: it is non-empty,
/// has at most `u32::MAX` entries, no weight exceeds `u64::MAX / n`, and the
/// weights do not all vanish.
pub open spec fn accepted_weights(w: Seq<u64>) -> bool {
    &&& 0 < w.len() <= u32::MAX
    &&& forall|i: int| 0 <= i < w.len() ==> w[i] <= u64::MAX / (w.len() as u64)
    &&& exists|i: int| 0 <= i < w.len() && w[i] > 0
}

/// Relies on `alias_method::WeightedIndex::new`, which fails exactly on the
/// weight lists that `accepted_weights` rules out and otherwise keeps one
/// index per weight.
#[verifier::external_body]
pub(crate) fn new_alias_table(weights: Vec<u64>) -> (r: Option<AliasTable>)
    ensures
        r is Some <==> accepted_weights(weights@),
        r matches Some(d) ==> alias_weights(d) == weights@,
{
    WeightedIndex::new(weights).ok().map(|inner| AliasTable { inner })
}

/// Relies on `Distribution::sample` of `alias_method::WeightedIndex`, drawn
/// from the thread-local generator: the index lies below the number of weights.
#[verifier::external_body]
pub(crate) fn draw_index(d: &AliasTable) -> (r: usize)
    ensures
        r < alias_weights(*d).len(),
{
    d.inner.sample(&mut rand::thread_rng())
}

} // verus!
