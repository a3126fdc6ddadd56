//! Merkle roots and signature checks, computed by `fides`.
use vstd::prelude::*;

verus! {

/// The BLAKE3 Merkle root over the given leaves, in their order.
pub uninterp spec fn merkle_root_of(leaves: Seq<Seq<u8>>) -> Seq<u8>;

/// Whether Ed25519 accepts `signature` on `message` under `public_key`.
pub uninterp spec fn ed25519_accepts(message: Seq<u8>, public_key: Seq<u8>, signature: Seq<u8>) -> bool;

/// Relies on `fides::merkle_tree::root` with `fides::hash::blake_3` as the
/// hasher: a 32-byte digest that depends on the leaves and their order alone.
#[verifier::external_body]
pub(crate) fn merkle_root(leaves: &Vec<Vec<u8>>) -> (r: [u8; 32])
    ensures
        r@ == merkle_root_of(leaves.deep_view()),
{
    let slices: Vec<&[u8]> = leaves.iter().map(|leaf| leaf.as_slice()).collect();
    fides::merkle_tree::root(fides::hash::blake_3, &slices)
}

/// Relies on `fides::ed25519::verify`; a key or signature that it cannot
/// read, which it reports as an error, counts as a rejection.
#[verifier::external_body]
pub(crate) fn ed25519_verify(message: &[u8; 32], public_key: &[u8; 32], signature: &[u8; 64]) -> (r: bool)
    ensures
        r == ed25519_accepts(message@, public_key@, signature@),
{
    match fides::ed25519::verify(message, public_key, signature) {
        Ok(valid) => valid,
        Err(_) => false,
    }
}

} // verus!
