//! Field arithmetic on values that may be missing.
//!
//! A circuit variable has no value while a circuit is only being laid out, so
//! the contracts of this crate speak of values that may be missing: an
//! operation has a value exactly when both operands have one. A plain field
//! element always has one.

use crate::field::le_value;
use crate::field::FieldElement;
use crate::field::PrimeModulus;
use vstd::prelude::*;

verus! {

/// Addition modulo `p` of two values that may be missing.
pub open spec fn add_val(p: nat, a: Option<nat>, b: Option<nat>) -> Option<nat> {
    match (a, b) {
        (Some(x), Some(y)) => Some((x + y) % p),
        _ => None,
    }
}

/// Multiplication modulo `p` of two values that may be missing.
pub open spec fn mul_val(p: nat, a: Option<nat>, b: Option<nat>) -> Option<nat> {
    match (a, b) {
        (Some(x), Some(y)) => Some((x * y) % p),
        _ => None,
    }
}

/// The value, if there is one, is below `p`.
pub open spec fn canonical(p: nat, x: Option<nat>) -> bool {
    x matches Some(v) ==> v < p
}

/// A sum in the field is below the modulus.
pub proof fn lemma_add_val_canonical(p: nat, a: Option<nat>, b: Option<nat>)
    requires
        p > 0,
    ensures
        canonical(p, add_val(p, a, b)),
{
}

/// Every byte of the sequence has a value.
pub open spec fn all_assigned(bytes: Seq<Option<u8>>) -> bool {
    forall|i: int| 0 <= i < bytes.len() ==> (#[trigger] bytes[i]) is Some
}

/// The bytes of a sequence in which every byte has a value.
pub open spec fn assigned_bytes(bytes: Seq<Option<u8>>) -> Seq<u8> {
    Seq::new(bytes.len(), |i: int| bytes[i].unwrap())
}

/// The field element that one chunk of bytes packs into: the little-endian
/// number that the bytes spell, reduced modulo `p`; missing if a byte is.
pub open spec fn pack_val(p: nat, chunk: Seq<Option<u8>>) -> Option<nat> {
    if all_assigned(chunk) {
        Some(le_value(assigned_bytes(chunk)) % p)
    } else {
        None
    }
}

/// The values of a sequence of field elements, none of them missing.
pub open spec fn element_vals<F: PrimeModulus>(items: Seq<FieldElement<F>>) -> Seq<Option<nat>> {
    Seq::new(items.len(), |i: int| Some(items[i]@))
}

/// Every element of the sequence is a canonical representative.
pub open spec fn all_canonical<F: PrimeModulus>(items: Seq<FieldElement<F>>) -> bool {
    forall|i: int| 0 <= i < items.len() ==> (#[trigger] items[i]).wf()
}

/// The bytes of a byte string, as bytes none of which is missing.
pub open spec fn given_bytes(bytes: Seq<u8>) -> Seq<Option<u8>> {
    Seq::new(bytes.len(), |i: int| Some(bytes[i]))
}

} // verus!
