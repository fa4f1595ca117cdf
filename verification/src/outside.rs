//! The calls that leave this crate, each behind a contract that is taken on
//! trust.

use vstd::prelude::*;

verus! {

/// `rand::Rng::random_range` on the generator of the current thread, for a
/// half-open range of `i32`. The range must not be empty, for the call panics
/// on an empty one. The contract claims that the value drawn lies in the
/// range, and nothing about which value it is.
#[verifier::external_body]
pub(crate) fn random_range(low: i32, high: i32) -> (value: i32)
    requires
        low < high,
    ensures
        low <= value < high,
{
    rand::Rng::random_range(&mut rand::rng(), low..high)
}

/// `uuid::Uuid::new_v4`, read as a number with `Uuid::as_u128`. The contract
/// claims the version and variant bits that every such id carries, and
/// nothing about the random bits.
#[verifier::external_body]
pub(crate) fn new_id() -> (id: u128)
    ensures
        id & 0x0000_0000_0000_f000_c000_0000_0000_0000 == 0x0000_0000_0000_4000_8000_0000_0000_0000,
{
    uuid::Uuid::new_v4().as_u128()
}

} // verus!
