//! The one place where the library asks for random bytes.

use rand::Rng;
use vstd::prelude::*;

verus! {

/// Calls `rand::Rng::fill` on `rand::thread_rng()` with a zeroed buffer of `n`
/// bytes and returns the buffer. The only claim is the length: the bytes are
/// random, so two calls with the same `n` may differ. The call panics if the
/// operating system cannot seed the generator.
#[verifier::external_body]
pub(crate) fn random_bytes(n: usize) -> (bytes: Vec<u8>)
    ensures
        bytes@.len() == n,
{
    let mut bytes = vec![0u8; n];
    rand::thread_rng().fill(&mut bytes[..]);
    bytes
}

} // verus!
