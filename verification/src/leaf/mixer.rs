//! The leaf of a mixer: three secret field elements, a commitment to all
//! three, and a tag that gives away one use of them.
//!
//! The commitment (the leaf) is recorded when funds are deposited. The tag
//! (the nullifier hash) is shown when they are withdrawn, so that the same
//! deposit cannot be withdrawn twice. Both are hashes; neither is checked or
//! stored here.

use crate::crh::FieldHasher;
use crate::error::Error;
use crate::field::FieldElement;
use crate::field::NativeField;
use crate::field::PrimeModulus;
use ark_std::rand::Rng;
use vstd::prelude::*;

verus! {

/// The secrets of one deposit.
#[derive(Debug, Clone, PartialEq, Eq)]
pub struct Private<F: PrimeModulus> {
    r: FieldElement<F>,
    nullifier: FieldElement<F>,
    rho: FieldElement<F>,
}

impl<F: PrimeModulus> Private<F> {
    /// The three secrets are canonical representatives.
    pub closed spec fn wf(&self) -> bool {
        self.r.wf() && self.nullifier.wf() && self.rho.wf()
    }

    /// The bytes of `r`.
    pub closed spec fn r_bytes(&self) -> Seq<u8> {
        self.r.bytes()
    }

    /// The bytes of `nullifier`.
    pub closed spec fn nullifier_bytes(&self) -> Seq<u8> {
        self.nullifier.bytes()
    }

    /// The bytes of `rho`.
    pub closed spec fn rho_bytes(&self) -> Seq<u8> {
        self.rho.bytes()
    }

    /// The bytes that the leaf is the hash of: `r`, `nullifier` and `rho`, one
    /// after the other.
    pub open spec fn leaf_input(&self) -> Seq<u8> {
        self.r_bytes() + self.nullifier_bytes() + self.rho_bytes()
    }

    /// The bytes that the nullifier hash is the hash of: `nullifier` twice.
    pub open spec fn nullifier_input(&self) -> Seq<u8> {
        self.nullifier_bytes() + self.nullifier_bytes()
    }
}

impl<F: NativeField> Private<F> {
    /// Three secrets, each drawn uniformly from the field.
    pub fn generate<R: Rng>(rng: &mut R) -> (r: Self)
        ensures
            r.wf(),
    {
        let r = FieldElement::rand(rng);
        let nullifier = FieldElement::rand(rng);
        let rho = FieldElement::rand(rng);
        Private { r, nullifier, rho }
    }

    /// Secrets made of the three given elements.
    pub fn from_elements(r: FieldElement<F>, nullifier: FieldElement<F>, rho: FieldElement<F>) -> (s:
        Self)
        ensures
            s.wf() <==> r.wf() && nullifier.wf() && rho.wf(),
            s.r_bytes() == r.bytes(),
            s.nullifier_bytes() == nullifier.bytes(),
            s.rho_bytes() == rho.bytes(),
    {
        Private { r, nullifier, rho }
    }

    pub fn r(&self) -> (e: FieldElement<F>)
        ensures
            e.bytes() == self.r_bytes(),
            self.wf() ==> e.wf(),
    {
        self.r.clone()
    }

    pub fn nullifier(&self) -> (e: FieldElement<F>)
        ensures
            e.bytes() == self.nullifier_bytes(),
            self.wf() ==> e.wf(),
    {
        self.nullifier.clone()
    }

    pub fn rho(&self) -> (e: FieldElement<F>)
        ensures
            e.bytes() == self.rho_bytes(),
            self.wf() ==> e.wf(),
    {
        self.rho.clone()
    }
}

/// What a deposit makes public: the leaf, when the deposit is made, and the
/// nullifier hash, when it is withdrawn.
#[derive(Debug, Clone, PartialEq, Eq)]
pub struct Output<F: PrimeModulus> {
    pub leaf: FieldElement<F>,
    pub nullifier_hash: FieldElement<F>,
}

impl<F: NativeField> Output<F> {
    /// The bytes of the leaf, then those of the nullifier hash.
    pub fn to_bytes(&self) -> (r: Vec<u8>)
        ensures
            r@ == self.leaf.bytes() + self.nullifier_hash.bytes(),
    {
        let mut bytes = self.leaf.to_bytes();
        let rest = self.nullifier_hash.to_bytes();
        bytes.extend_from_slice(rest.as_slice());
        proof {
            assert(bytes@ =~= self.leaf.bytes() + self.nullifier_hash.bytes());
        }
        bytes
    }
}

/// The leaves of a mixer, hashed with `H`.
#[derive(Debug, Clone)]
pub struct MixerLeaf<H> {
    pub hasher: H,
}

impl<H> MixerLeaf<H> {
    pub fn new(hasher: H) -> (r: Self)
        ensures
            r.hasher == hasher,
    {
        MixerLeaf { hasher }
    }

    /// The secrets of a new deposit.
    pub fn generate_secrets<F: NativeField, R: Rng>(r: &mut R) -> (s: Result<Private<F>, Error>)
        ensures
            s matches Ok(secrets) && secrets.wf(),
    {
        Ok(Private::generate(r))
    }

    /// The leaf of the secrets: the hash of `r`, `nullifier` and `rho`.
    pub fn create_leaf<F: NativeField>(
        &self,
        s: &Private<F>,
        public: &(),
        h: &H::Parameters,
    ) -> (r: Result<FieldElement<F>, Error>) where H: FieldHasher<F>
        requires
            self.hasher.accepts(h),
        ensures
            r matches Ok(leaf) ==> leaf.wf() && self.hasher.outcome(h, s.leaf_input()) == Ok::<
                nat,
                Error,
            >(leaf@),
            r matches Err(e) ==> self.hasher.outcome(h, s.leaf_input()) == Err::<nat, Error>(e),
    {
        let mut input_bytes = s.r.to_bytes();
        let second = s.nullifier.to_bytes();
        let third = s.rho.to_bytes();
        input_bytes.extend_from_slice(second.as_slice());
        input_bytes.extend_from_slice(third.as_slice());
        proof {
            assert(input_bytes@ =~= s.leaf_input());
        }
        self.hasher.evaluate(h, input_bytes.as_slice())
    }

    /// The nullifier hash of the secrets: the hash of `nullifier` and `nullifier`.
    pub fn create_nullifier<F: NativeField>(&self, s: &Private<F>, h: &H::Parameters) -> (r:
        Result<FieldElement<F>, Error>) where H: FieldHasher<F>
        requires
            self.hasher.accepts(h),
        ensures
            r matches Ok(tag) ==> tag.wf() && self.hasher.outcome(h, s.nullifier_input()) == Ok::<
                nat,
                Error,
            >(tag@),
            r matches Err(e) ==> self.hasher.outcome(h, s.nullifier_input()) == Err::<nat, Error>(
                e,
            ),
    {
        let mut nullifier_bytes = s.nullifier.to_bytes();
        let again = s.nullifier.to_bytes();
        nullifier_bytes.extend_from_slice(again.as_slice());
        proof {
            assert(nullifier_bytes@ =~= s.nullifier_input());
        }
        self.hasher.evaluate(h, nullifier_bytes.as_slice())
    }
}

} // verus!
