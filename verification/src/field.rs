//! Prime-field elements as plain bytes, and the arithmetic that arkworks does on them.
//!
//! A field element is held as the little-endian bytes of its canonical
//! representative, so that contracts can speak of it as a natural number below
//! the modulus. The arithmetic itself is done by the arkworks field types.

use ark_ff::BigInteger;
use ark_ff::PrimeField;
use ark_std::rand::Rng;
use ark_std::UniformRand;
use std::marker::PhantomData;
use vstd::prelude::*;

verus! {

/// The natural number that a byte string spells in little-endian order.
pub open spec fn le_value(bytes: Seq<u8>) -> nat
    decreases bytes.len(),
{
    if bytes.len() == 0 {
        0
    } else {
        bytes[0] as nat + 256 * le_value(bytes.drop_first())
    }
}

/// The natural number that a sequence of 64-bit limbs spells, least significant limb first.
pub open spec fn limbs_value(limbs: Seq<u64>) -> nat
    decreases limbs.len(),
{
    if limbs.len() == 0 {
        0
    } else {
        limbs[0] as nat + 0x1_0000_0000_0000_0000 * limbs_value(limbs.drop_first())
    }
}

/// What the contracts of this crate need to know of a prime field.
///
/// It is implemented for arkworks field types. An implementation must state the
/// modulus of the very type it is written for, and the number of bytes in which
/// that type serialises an element (eight per limb): the contracts of the
/// arithmetic in this module are stated over these two numbers.
pub trait PrimeModulus: Sized {
    /// The prime `p` of the field.
    spec fn modulus() -> nat;

    /// The number of bytes of a serialised element, which is also the size of
    /// the chunks in which input bytes are packed into elements.
    spec fn chunk_len() -> nat;

    /// The number of bytes of a serialised element.
    fn chunk_size() -> (n: usize)
        ensures
            n == Self::chunk_len(),
    ;

    /// The modulus is a prime, so more than one, and an element has bytes.
    proof fn field_bounds()
        ensures
            1 < Self::modulus(),
            0 < Self::chunk_len() <= 64,
    ;
}

/// `ark_ff::Fp256`: an element of a prime field of up to 256 bits, four limbs wide.
#[verifier::external_type_specification]
#[verifier::external_body]
#[verifier::reject_recursive_types(P)]
pub struct ExFp256<P>(ark_ff::Fp256<P>);

/// `ark_ff::Fp384`: an element of a prime field of up to 384 bits, six limbs wide.
#[verifier::external_type_specification]
#[verifier::external_body]
#[verifier::reject_recursive_types(P)]
pub struct ExFp384<P>(ark_ff::Fp384<P>);

/// The marker by which arkworks names the scalar field of BN254.
#[verifier::external_type_specification]
#[verifier::external_body]
pub struct ExBn254ScalarParameters(ark_ed_on_bn254::FqParameters);

/// The marker by which arkworks names the scalar field of BLS12-381.
#[verifier::external_type_specification]
#[verifier::external_body]
pub struct ExBls12381ScalarParameters(ark_ed_on_bls12_381::FqParameters);

/// The marker by which arkworks names the base field of BLS12-381.
#[verifier::external_type_specification]
#[verifier::external_body]
pub struct ExBls12381BaseParameters(ark_bls12_381::FqParameters);

/// The scalar field of BN254, which is the base field of its embedded Edwards
/// curve (254 bits). The limbs are those of `MODULUS` in the field's
/// parameters, least significant first.
impl PrimeModulus for ark_ff::Fp256<ark_ed_on_bn254::FqParameters> {
    open spec fn modulus() -> nat {
        limbs_value(
            seq![
                0x43e1f593f0000001u64,
                0x2833e84879b97091u64,
                0xb85045b68181585du64,
                0x30644e72e131a029u64,
            ],
        )
    }

    open spec fn chunk_len() -> nat {
        32
    }

    fn chunk_size() -> (n: usize) {
        32
    }

    proof fn field_bounds() {
        reveal_with_fuel(limbs_value, 5);
    }
}

/// The scalar field of BLS12-381, which is the base field of its embedded
/// Edwards curve (255 bits). The limbs are those of `MODULUS` in the field's
/// parameters, least significant first.
impl PrimeModulus for ark_ff::Fp256<ark_ed_on_bls12_381::FqParameters> {
    open spec fn modulus() -> nat {
        limbs_value(
            seq![
                0xffffffff00000001u64,
                0x53bda402fffe5bfeu64,
                0x3339d80809a1d805u64,
                0x73eda753299d7d48u64,
            ],
        )
    }

    open spec fn chunk_len() -> nat {
        32
    }

    fn chunk_size() -> (n: usize) {
        32
    }

    proof fn field_bounds() {
        reveal_with_fuel(limbs_value, 5);
    }
}

/// The base field of BLS12-381 (381 bits). The limbs are those of `MODULUS`
/// in the field's parameters, least significant first.
impl PrimeModulus for ark_ff::Fp384<ark_bls12_381::FqParameters> {
    open spec fn modulus() -> nat {
        limbs_value(
            seq![
                0xb9feffffffffaaabu64,
                0x1eabfffeb153ffffu64,
                0x6730d2a0f6b0f624u64,
                0x64774b84f38512bfu64,
                0x4b1ba7b6434bacd7u64,
                0x1a0111ea397fe69au64,
            ],
        )
    }

    open spec fn chunk_len() -> nat {
        48
    }

    fn chunk_size() -> (n: usize) {
        48
    }

    proof fn field_bounds() {
        reveal_with_fuel(limbs_value, 7);
    }
}

/// An element of the prime field `F`, held as the little-endian bytes of its
/// canonical representative.
#[derive(Debug, PartialEq, Eq)]
pub struct FieldElement<F: PrimeModulus> {
    bytes: Vec<u8>,
    field: PhantomData<F>,
}

impl<F: PrimeModulus> View for FieldElement<F> {
    type V = nat;

    /// The element as a natural number.
    closed spec fn view(&self) -> nat {
        le_value(self.bytes@)
    }
}

impl<F: PrimeModulus> FieldElement<F> {
    /// The bytes in which the element is held.
    pub closed spec fn bytes(&self) -> Seq<u8> {
        self.bytes@
    }

    /// The element is the canonical representative, in the field's own number of bytes.
    pub open spec fn wf(&self) -> bool {
        &&& self.bytes().len() == F::chunk_len()
        &&& le_value(self.bytes()) == self@
        &&& self@ < F::modulus()
    }
}

/// Byte strings of one length that spell the same number are the same.
pub proof fn lemma_le_value_injective(a: Seq<u8>, b: Seq<u8>)
    requires
        a.len() == b.len(),
        le_value(a) == le_value(b),
    ensures
        a == b,
    decreases a.len(),
{
    if a.len() > 0 {
        let x = le_value(a.drop_first());
        let y = le_value(b.drop_first());
        assert(a[0] == b[0] && x == y) by (nonlinear_arith)
            requires
                a[0] as nat + 256 * x == b[0] as nat + 256 * y,
                a[0] < 256,
                b[0] < 256,
        ;
        lemma_le_value_injective(a.drop_first(), b.drop_first());
        assert(a =~= seq![a[0]] + a.drop_first());
        assert(b =~= seq![b[0]] + b.drop_first());
    } else {
        assert(a =~= b);
    }
}

/// Two canonical elements that stand for the same number are held in the same bytes.
pub proof fn lemma_canonical_unique<F: PrimeModulus>(a: &FieldElement<F>, b: &FieldElement<F>)
    requires
        a.wf(),
        b.wf(),
        a@ == b@,
    ensures
        a.bytes() == b.bytes(),
{
    lemma_le_value_injective(a.bytes(), b.bytes());
}

/// Calls `PrimeField::from_le_bytes_mod_order` and serialises what it returns
/// with `PrimeField::into_repr` and `BigInteger::to_bytes_le`. The first
/// reads the bytes as a little-endian number and reduces it modulo the
/// field's prime; the other two write the canonical representative, eight
/// bytes per limb, least significant byte first.
#[verifier::external_body]
fn native_from_le_bytes<F: PrimeField + PrimeModulus>(bytes: &[u8]) -> (r: FieldElement<F>)
    ensures
        r.wf(),
        r@ == le_value(bytes@) % F::modulus(),
{
    let x = F::from_le_bytes_mod_order(bytes);
    FieldElement { bytes: x.into_repr().to_bytes_le(), field: PhantomData }
}

/// Calls the `+` of the arkworks field on the two elements: addition modulo
/// the field's prime.
#[verifier::external_body]
fn native_add<F: PrimeField + PrimeModulus>(a: &FieldElement<F>, b: &FieldElement<F>) -> (r:
    FieldElement<F>)
    ensures
        r.wf(),
        r@ == (a@ + b@) % F::modulus(),
{
    let x = F::from_le_bytes_mod_order(&a.bytes) + F::from_le_bytes_mod_order(&b.bytes);
    FieldElement { bytes: x.into_repr().to_bytes_le(), field: PhantomData }
}

/// Calls the `*` of the arkworks field on the two elements: multiplication
/// modulo the field's prime.
#[verifier::external_body]
fn native_mul<F: PrimeField + PrimeModulus>(a: &FieldElement<F>, b: &FieldElement<F>) -> (r:
    FieldElement<F>)
    ensures
        r.wf(),
        r@ == (a@ * b@) % F::modulus(),
{
    let x = F::from_le_bytes_mod_order(&a.bytes) * F::from_le_bytes_mod_order(&b.bytes);
    FieldElement { bytes: x.into_repr().to_bytes_le(), field: PhantomData }
}

/// Calls `UniformRand::rand` of the arkworks field, which draws an element
/// from the generator. Which element comes is not stated: only that it is
/// one, held as a canonical representative.
#[verifier::external_body]
fn native_rand<F: PrimeField + PrimeModulus, R: Rng>(rng: &mut R) -> (r: FieldElement<F>)
    ensures
        r.wf(),
{
    let x = F::rand(rng);
    FieldElement { bytes: x.into_repr().to_bytes_le(), field: PhantomData }
}

/// The arithmetic of a prime field, on elements held as bytes.
///
/// Each implementation hands the work to the arkworks field type that it is
/// written for.
pub trait NativeField: PrimeModulus {
    /// The element that the bytes spell as a little-endian number, reduced modulo the prime.
    fn reduce(bytes: &[u8]) -> (r: FieldElement<Self>)
        ensures
            r.wf(),
            r@ == le_value(bytes@) % Self::modulus(),
    ;

    /// The sum of two elements.
    fn sum(a: &FieldElement<Self>, b: &FieldElement<Self>) -> (r: FieldElement<Self>)
        ensures
            r.wf(),
            r@ == (a@ + b@) % Self::modulus(),
    ;

    /// The product of two elements.
    fn product(a: &FieldElement<Self>, b: &FieldElement<Self>) -> (r: FieldElement<Self>)
        ensures
            r.wf(),
            r@ == (a@ * b@) % Self::modulus(),
    ;

    /// An element drawn uniformly from the field.
    fn sample<R: Rng>(rng: &mut R) -> (r: FieldElement<Self>)
        ensures
            r.wf(),
    ;
}

impl NativeField for ark_ff::Fp256<ark_ed_on_bn254::FqParameters> {
    fn reduce(bytes: &[u8]) -> (r: FieldElement<Self>) {
        native_from_le_bytes(bytes)
    }

    fn sum(a: &FieldElement<Self>, b: &FieldElement<Self>) -> (r: FieldElement<Self>) {
        native_add(a, b)
    }

    fn product(a: &FieldElement<Self>, b: &FieldElement<Self>) -> (r: FieldElement<Self>) {
        native_mul(a, b)
    }

    fn sample<R: Rng>(rng: &mut R) -> (r: FieldElement<Self>) {
        native_rand(rng)
    }
}

impl NativeField for ark_ff::Fp256<ark_ed_on_bls12_381::FqParameters> {
    fn reduce(bytes: &[u8]) -> (r: FieldElement<Self>) {
        native_from_le_bytes(bytes)
    }

    fn sum(a: &FieldElement<Self>, b: &FieldElement<Self>) -> (r: FieldElement<Self>) {
        native_add(a, b)
    }

    fn product(a: &FieldElement<Self>, b: &FieldElement<Self>) -> (r: FieldElement<Self>) {
        native_mul(a, b)
    }

    fn sample<R: Rng>(rng: &mut R) -> (r: FieldElement<Self>) {
        native_rand(rng)
    }
}

impl NativeField for ark_ff::Fp384<ark_bls12_381::FqParameters> {
    fn reduce(bytes: &[u8]) -> (r: FieldElement<Self>) {
        native_from_le_bytes(bytes)
    }

    fn sum(a: &FieldElement<Self>, b: &FieldElement<Self>) -> (r: FieldElement<Self>) {
        native_add(a, b)
    }

    fn product(a: &FieldElement<Self>, b: &FieldElement<Self>) -> (r: FieldElement<Self>) {
        native_mul(a, b)
    }

    fn sample<R: Rng>(rng: &mut R) -> (r: FieldElement<Self>) {
        native_rand(rng)
    }
}

impl<F: NativeField> FieldElement<F> {
    /// The element that the bytes spell as a little-endian number, reduced
    /// modulo the prime.
    pub fn from_le_bytes_mod_order(bytes: &[u8]) -> (r: Self)
        ensures
            r.wf(),
            r@ == le_value(bytes@) % F::modulus(),
    {
        F::reduce(bytes)
    }

    pub fn zero() -> (r: Self)
        ensures
            r.wf(),
            r@ == 0,
    {
        let bytes: Vec<u8> = Vec::new();
        let r = F::reduce(bytes.as_slice());
        proof {
            F::field_bounds();
            assert(le_value(bytes@) == 0);
            assert(0nat % F::modulus() == 0) by (nonlinear_arith)
                requires
                    F::modulus() > 1,
            ;
        }
        r
    }

    pub fn one() -> (r: Self)
        ensures
            r.wf(),
            r@ == 1,
    {
        let mut bytes: Vec<u8> = Vec::new();
        bytes.push(1u8);
        let r = F::reduce(bytes.as_slice());
        proof {
            F::field_bounds();
            assert(bytes@.drop_first().len() == 0);
            assert(le_value(bytes@.drop_first()) == 0);
            assert(le_value(bytes@) == 1);
            assert(1nat % F::modulus() == 1) by (nonlinear_arith)
                requires
                    F::modulus() > 1,
            ;
        }
        r
    }

    /// Draws a uniformly distributed element from `rng`.
    pub fn rand<R: Rng>(rng: &mut R) -> (r: Self)
        ensures
            r.wf(),
    {
        F::sample(rng)
    }

    /// The sum of the two elements in the field.
    pub fn add(&self, rhs: &Self) -> (r: Self)
        ensures
            r.wf(),
            r@ == (self@ + rhs@) % F::modulus(),
    {
        F::sum(self, rhs)
    }

    /// The product of the two elements in the field.
    pub fn mul(&self, rhs: &Self) -> (r: Self)
        ensures
            r.wf(),
            r@ == (self@ * rhs@) % F::modulus(),
    {
        F::product(self, rhs)
    }

    /// The bytes of the element: its serialisation, least significant byte first.
    pub fn to_bytes(&self) -> (r: Vec<u8>)
        ensures
            r@ == self.bytes(),
    {
        self.bytes.clone()
    }
}

impl<F: PrimeModulus> Clone for FieldElement<F> {
    fn clone(&self) -> (r: Self)
        ensures
            r.bytes() == self.bytes(),
            r@ == self@,
    {
        FieldElement { bytes: self.bytes.clone(), field: PhantomData }
    }
}

} // verus!
