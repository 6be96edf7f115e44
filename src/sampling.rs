//! Random choice of distinct positions, through `rand`.

use rand::rngs::StdRng;
use vstd::prelude::*;

verus! {

#[verifier::external_type_specification]
#[verifier::external_body]
pub struct ExStdRng(StdRng);

/// Relies on `rand::seq::index::sample`: exactly `amount` distinct indices,
/// each below `length`, in no promised order. It panics when
/// `amount > length`; past `u32::MAX` it samples by rejection, which in a
/// debug build also panics when `amount == length`, so `length` stays
/// within `u32`.
#[verifier::external_body]
pub(crate) fn sample_indices(rng: &mut StdRng, length: usize, amount: usize) -> (r: Vec<usize>)
    requires
        amount <= length,
        length <= u32::MAX,
    ensures
        r@.len() == amount,
        r@.no_duplicates(),
        forall|i: int| 0 <= i < r@.len() ==> r@[i] < length,
{
    rand::seq::index::sample(rng, length, amount).into_vec()
}

} // verus!
