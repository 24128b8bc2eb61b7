//! The Poseidon hash of one field element, used as the source of a lookup
//! table.
//!
//! The permutation is not modelled: the digest is a fixed function of the
//! input, named `poseidon_digest`, and nothing more is claimed of it.

use crate::field::Felt;
use halo2_gadgets::poseidon::primitives;
use halo2_proofs::pasta::group::ff::PrimeField;
use halo2_proofs::pasta::Fp;
use vstd::prelude::*;

verus! {

/// The representative of the width-3, rate-2 Poseidon digest (parameters
/// `P128Pow5T3`, constant input length 1) of the element whose
/// representative is `input`.
pub uninterp spec fn poseidon_digest(input: int) -> int;

/// `Hash::<Fp, P128Pow5T3, ConstantLength<1>, 3, 2>::init().hash([a])` on a
/// canonical byte string: the digest depends on the input alone and comes
/// back as canonical bytes.
#[verifier::external_body]
fn poseidon_hash(a: &Felt) -> (r: Felt)
    requires
        a.canonical(),
    ensures
        r.value() == poseidon_digest(a.value()),
        r.canonical(),
{
    let x = Fp::from_repr(a.repr).unwrap();
    let hasher = primitives::Hash::<Fp, primitives::P128Pow5T3, primitives::ConstantLength<1>, 3, 2>::init();
    let digest = hasher.hash([x]);
    Felt { repr: digest.to_repr() }
}

/// Hashes one field element.
pub fn hash(a: &Felt) -> (r: Felt)
    ensures
        r.value() == poseidon_digest(a.value()),
        r.canonical(),
{
    proof {
        use_type_invariant(a);
    }
    poseidon_hash(a)
}

} // verus!
