//! The random choices of the streaming core.

use rand::seq::SliceRandom;
use rand::Rng;
use vstd::prelude::*;

verus! {

/// The error that `rand` reports for unusable weights.
#[verifier::external_type_specification]
#[verifier::external_body]
pub struct ExWeightedError(rand::distributions::WeightedError);

/// `Rng::gen_range(0..bound)` on the thread's generator: some value below
/// `bound`. The range must not be empty.
#[verifier::external_body]
pub(crate) fn random_below(bound: u64) -> (r: u64)
    requires
        bound > 0,
    ensures
        r < bound,
{
    rand::thread_rng().gen_range(0..bound)
}

/// `rand::seq::index::sample` on the thread's generator: exactly `amount`
/// distinct indices below `length`, in random order. `amount` must not
/// exceed `length`.
#[verifier::external_body]
pub(crate) fn sample_indices(length: usize, amount: usize) -> (picked: Vec<usize>)
    requires
        amount <= length,
    ensures
        picked@.len() == amount,
        picked@.no_duplicates(),
        forall|k: int| 0 <= k < picked@.len() ==> #[trigger] picked@[k] < length,
{
    rand::seq::index::sample(&mut rand::thread_rng(), length, amount).into_vec()
}

/// `rand::seq::index::sample_weighted` on the thread's generator, the weight
/// of index `i` being `weights[i]`: exactly `amount` distinct indices below
/// the number of weights. `amount` must not exceed that number. The crate
/// reports an error only for a weight that is negative or no number, which
/// a `u32` never is; so the draw succeeds.
#[verifier::external_body]
pub(crate) fn sample_indices_weighted(weights: &Vec<u32>, amount: usize) -> (picked: Result<
    Vec<usize>,
    rand::distributions::WeightedError,
>)
    requires
        amount <= weights@.len(),
    ensures
        picked is Ok,
        picked matches Ok(v) ==> {
            &&& v@.len() == amount
            &&& v@.no_duplicates()
            &&& forall|k: int| 0 <= k < v@.len() ==> #[trigger] v@[k] < weights@.len()
        },
{
    let n = weights.len();
    let found = rand::seq::index::sample_weighted(&mut rand::thread_rng(), n, |i| weights[i], amount);
    found.map(|v| v.into_vec())
}

/// `SliceRandom::choose` on the thread's generator: one of the entries, or
/// `None` where there is none to choose from.
#[verifier::external_body]
pub(crate) fn choose_entry<'a>(items: &'a Vec<String>) -> (pick: Option<&'a String>)
    ensures
        pick is None <==> items@.len() == 0,
        pick matches Some(s) ==> exists|i: int| 0 <= i < items@.len() && #[trigger] items@[i] == *s,
{
    items.choose(&mut rand::thread_rng())
}

} // verus!
