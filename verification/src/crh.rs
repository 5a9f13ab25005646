//! What the two hashes have in common: bytes in, one field element out.

use crate::error::Error;
use crate::field::lemma_canonical_unique;
use crate::field::FieldElement;
use crate::field::NativeField;
use vstd::prelude::*;

verus! {

/// A hash from bytes to one element of the field `F`.
pub trait FieldHasher<F: NativeField> {
    /// The numbers that an instance is keyed with.
    type Parameters;

    /// The parameters are ones that this instance can run on.
    spec fn accepts(&self, parameters: &Self::Parameters) -> bool;

    /// What hashing the bytes comes to: the hash as a number, or the reason
    /// for which the bytes are refused.
    spec fn outcome(&self, parameters: &Self::Parameters, input: Seq<u8>) -> Result<nat, Error>;

    /// The hash of the input bytes.
    fn evaluate(&self, parameters: &Self::Parameters, input: &[u8]) -> (r: Result<
        FieldElement<F>,
        Error,
    >)
        requires
            self.accepts(parameters),
        ensures
            r matches Ok(h) ==> h.wf() && self.outcome(parameters, input@) == Ok::<nat, Error>(h@),
            r matches Err(e) ==> self.outcome(parameters, input@) == Err::<nat, Error>(e),
    ;
}

/// What `evaluate` promises of its result.
pub open spec fn evaluated<F: NativeField, H: FieldHasher<F>>(
    hasher: &H,
    parameters: &H::Parameters,
    input: Seq<u8>,
    result: Result<FieldElement<F>, Error>,
) -> bool {
    match result {
        Ok(h) => h.wf() && hasher.outcome(parameters, input) == Ok::<nat, Error>(h@),
        Err(e) => hasher.outcome(parameters, input) == Err::<nat, Error>(e),
    }
}

/// Hashing is deterministic: two evaluations with the same parameters on
/// the same input both succeed or both fail, with the same element, held in
/// the same bytes, or with the same error.
pub proof fn lemma_evaluate_deterministic<F: NativeField, H: FieldHasher<F>>(
    hasher: &H,
    parameters: &H::Parameters,
    input: Seq<u8>,
    first: Result<FieldElement<F>, Error>,
    second: Result<FieldElement<F>, Error>,
)
    requires
        evaluated(hasher, parameters, input, first),
        evaluated(hasher, parameters, input, second),
    ensures
        first is Ok <==> second is Ok,
        first matches Ok(a) ==> second matches Ok(b) && a@ == b@ && a.bytes() == b.bytes(),
        first matches Err(e) ==> second matches Err(f) && e == f,
{
    match (first, second) {
        (Ok(a), Ok(b)) => {
            lemma_canonical_unique(&a, &b);
        },
        _ => {},
    }
}

} // verus!
