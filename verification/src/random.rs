use vstd::prelude::*;

verus! {

/// A random `u32` from `rand::random`, which draws it from the thread-local
/// generator.  Nothing is claimed of the value: any `u32` may come back, and
/// two calls may return different values.
#[verifier::external_body]
pub(crate) fn random_u32() -> u32 {
    rand::random::<u32>()
}

} // verus!
