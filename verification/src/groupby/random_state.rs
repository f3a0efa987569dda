//! The hasher of `ahash` behind the keys of variable length.
//!
//! A state is seeded anew whenever one is made, so nothing is known of the
//! hash of a key but that it is a number, and that under one state equal
//! keys have equal hashes: the engine groups by the keys and uses the hashes
//! only to find them faster and to assign them to partitions.

use vstd::prelude::*;

verus! {

/// `ahash::RandomState`: the keys of a hasher, of which nothing is known.
#[verifier::external_type_specification]
#[verifier::external_body]
pub struct ExRandomState(ahash::RandomState);

/// Makes a hasher state with `ahash::RandomState::default`, which seeds it
/// with keys of its own choice. Nothing is claimed of the state.
#[verifier::external_body]
pub(crate) fn new_random_state() -> ahash::RandomState {
    ahash::RandomState::default()
}

/// Hashes every byte string with `ahash::RandomState::hash_one` under the
/// one state: a hash for each, in their order. The hash is computed from the
/// keys of the state and the bytes alone, so equal byte strings get equal
/// hashes. Nothing else is claimed of the hashes.
#[verifier::external_body]
pub(crate) fn hash_all(state: &ahash::RandomState, rows: &[&[u8]]) -> (hashes: Vec<u64>)
    ensures
        hashes@.len() == rows@.len(),
        forall|i: int, j: int|
            0 <= i < rows@.len() && 0 <= j < rows@.len() && rows@[i]@ == rows@[j]@
                ==> hashes@[i] == hashes@[j],
{
    rows.iter().map(|bytes| state.hash_one(*bytes)).collect()
}

} // verus!
