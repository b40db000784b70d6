use rand::distributions::{IndependentSample, Weighted, WeightedChoice};
use rand::Rng;
use vstd::prelude::*;

verus! {

/// The seedable generator that every random decision of the generator draws from.
#[verifier::external_type_specification]
#[verifier::external_body]
pub struct ExStdRng(rand::StdRng);

/// Relies on `rand::Rng::gen_range` (rand 0.4): a value in `[low, high)`;
/// it panics when `low >= high`, which `requires` leaves out.
#[verifier::external_body]
pub(crate) fn roll(rng: &mut rand::StdRng, low: i32, high: i32) -> (r: i32)
    requires
        low < high,
    ensures
        low <= r < high,
{
    rng.gen_range(low, high)
}

/// Relies on `rand::Rng::gen::<bool>` (rand 0.4): a fair coin; nothing is known of the outcome.
#[verifier::external_body]
pub(crate) fn flip(rng: &mut rand::StdRng) -> (r: bool) {
    rng.gen::<bool>()
}

/// The total of a list of weights.
pub open spec fn weight_sum(w: Seq<u32>) -> int
    decreases w.len(),
{
    if w.len() == 0 {
        0
    } else {
        weight_sum(w.drop_last()) + w.last() as int
    }
}

/// Relies on `rand::distributions::WeightedChoice` (rand 0.4): `new` panics on an empty
/// list, a zero total or a total above `u32::MAX`; `ind_sample` returns the item whose
/// cumulative weight first exceeds a draw in `[0, total)`, which is never one of weight zero.
#[verifier::external_body]
pub(crate) fn pick_weighted(rng: &mut rand::StdRng, weights: &Vec<u32>) -> (r: usize)
    requires
        weights.len() > 0,
        0 < weight_sum(weights@) <= u32::MAX,
    ensures
        r < weights.len(),
        weights@[r as int] > 0,
{
    let mut items: Vec<Weighted<usize>> = weights
        .iter()
        .enumerate()
        .map(|(i, w)| Weighted { weight: *w, item: i })
        .collect();
    let choice = WeightedChoice::new(&mut items);
    choice.ind_sample(rng)
}

} // verus!
