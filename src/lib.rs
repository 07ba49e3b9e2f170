//! Search for integers whose decimal text has a SHA-256 digest with many
//! leading zero bits.
use vstd::prelude::*;

pub mod bits;
pub mod hashing;
pub mod partition;
pub mod worker;

verus! {

} // verus!
