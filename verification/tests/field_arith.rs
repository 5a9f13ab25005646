use ark_ff::{BigInteger, FpParameters, PrimeField};
use ark_std::UniformRand;
use permutation_hash::circuit::{ByteGate, Circuit, Gate};
use permutation_hash::error::Error;
use permutation_hash::field::{FieldElement, NativeField, PrimeModulus};
use permutation_hash::packing::{count_chunks, pad_state, to_field_elements, to_field_var_elements};

type Bn = ark_ed_on_bn254::Fq;
type Bls = ark_ed_on_bls12_381::Fq;
type Base = ark_bls12_381::Fq;

fn field_to_ark<F: PrimeField + NativeField>(e: &FieldElement<F>) -> F {
    F::from_le_bytes_mod_order(&e.to_bytes())
}

fn field_from_ark<F: PrimeField + NativeField>(x: F) -> FieldElement<F> {
    FieldElement::from_le_bytes_mod_order(&x.into_repr().to_bytes_le())
}

fn small<F: PrimeField + NativeField>(n: u64) -> FieldElement<F> {
    FieldElement::from_le_bytes_mod_order(&n.to_le_bytes())
}

fn arithmetic_agrees_with_arkworks<F: PrimeField + NativeField>() {
    let rng = &mut ark_std::test_rng();
    for _ in 0..50 {
        let x = F::rand(rng);
        let y = F::rand(rng);
        let a = field_from_ark(x);
        let b = field_from_ark(y);
        assert_eq!(field_to_ark(&a), x);
        assert_eq!(field_to_ark(&a.add(&b)), x + y);
        assert_eq!(field_to_ark(&a.mul(&b)), x * y);
        assert_eq!(a.to_bytes(), x.into_repr().to_bytes_le());
    }
    assert_eq!(small::<F>(3).add(&small(4)), small(7));
    assert_eq!(small::<F>(5).mul(&small(6)), small(30));
    assert_eq!(FieldElement::<F>::zero(), small(0));
    assert_eq!(FieldElement::<F>::one(), small(1));
    assert_eq!(FieldElement::<F>::zero().to_bytes(), vec![0u8; F::chunk_size()]);
    let minus_one = field_from_ark(-F::from(1u64));
    assert_eq!(minus_one.add(&small(1)), small(0));
    assert_eq!(minus_one.mul(&minus_one), small(1));
}

fn modulus_is_that_of_arkworks<F: PrimeField + NativeField>() {
    let modulus = <F::Params as FpParameters>::MODULUS.to_bytes_le();
    assert_eq!(modulus.len(), F::chunk_size());
    // The modulus itself reduces to zero, and one less to minus one.
    assert_eq!(FieldElement::<F>::from_le_bytes_mod_order(&modulus), small(0));
    let mut below = modulus.clone();
    below[0] -= 1;
    let greatest = FieldElement::<F>::from_le_bytes_mod_order(&below);
    assert_eq!(greatest.to_bytes(), below);
    assert_eq!(greatest.add(&small(1)), small(0));
    // Bytes beyond the modulus are reduced, not refused.
    let all_ones = vec![0xffu8; F::chunk_size()];
    let reduced = FieldElement::<F>::from_le_bytes_mod_order(&all_ones);
    assert_eq!(field_to_ark(&reduced), F::from_le_bytes_mod_order(&all_ones));
    assert_ne!(reduced.to_bytes(), all_ones);
    // More bytes than an element has are read as one longer number.
    let long = vec![1u8; F::chunk_size() + 5];
    assert_eq!(
        field_to_ark(&FieldElement::<F>::from_le_bytes_mod_order(&long)),
        F::from_le_bytes_mod_order(&long)
    );
}

#[test]
fn field_arithmetic_is_that_of_arkworks() {
    arithmetic_agrees_with_arkworks::<Bn>();
    arithmetic_agrees_with_arkworks::<Bls>();
    arithmetic_agrees_with_arkworks::<Base>();
}

#[test]
fn field_moduli_are_those_of_arkworks() {
    modulus_is_that_of_arkworks::<Bn>();
    modulus_is_that_of_arkworks::<Bls>();
    modulus_is_that_of_arkworks::<Base>();
    assert_eq!(<Bn as PrimeModulus>::chunk_size(), 32);
    assert_eq!(<Bls as PrimeModulus>::chunk_size(), 32);
    assert_eq!(<Base as PrimeModulus>::chunk_size(), 48);
}

#[test]
fn field_elements_are_read_little_endian() {
    let e = FieldElement::<Bn>::from_le_bytes_mod_order(&[1, 2]);
    assert_eq!(e, small(513));
    let mut bytes = vec![0u8; 32];
    bytes[0] = 1;
    bytes[1] = 2;
    assert_eq!(e.to_bytes(), bytes);
    assert_eq!(e.clone(), e);
}

#[test]
fn random_elements_are_canonical_and_differ() {
    let rng = &mut ark_std::test_rng();
    let a = FieldElement::<Base>::rand(rng);
    let b = FieldElement::<Base>::rand(rng);
    assert_ne!(a, b);
    assert_eq!(a.to_bytes().len(), 48);
    assert_eq!(field_from_ark(field_to_ark(&a)), a);
    let again = &mut ark_std::test_rng();
    assert_eq!(a, field_from_ark(Base::rand(again)));
}

#[test]
fn bytes_are_packed_in_chunks() {
    assert_eq!(count_chunks(0, 32), 0);
    assert_eq!(count_chunks(1, 32), 1);
    assert_eq!(count_chunks(32, 32), 1);
    assert_eq!(count_chunks(33, 32), 2);
    assert_eq!(count_chunks(96, 32), 3);
    assert_eq!(count_chunks(usize::MAX, 1), usize::MAX);
    assert_eq!(count_chunks(usize::MAX, 2), usize::MAX / 2 + 1);

    assert_eq!(to_field_elements::<Bn>(&[]), vec![]);
    assert_eq!(to_field_elements::<Bn>(&[1, 2, 3, 4, 5, 6]), vec![small(0x0605_0403_0201)]);
    let mut two = vec![0u8; 33];
    two[0] = 7;
    two[32] = 9;
    assert_eq!(to_field_elements::<Bn>(&two), vec![small(7), small(9)]);
    assert_eq!(to_field_elements::<Base>(&two), vec![field_from_ark(
        Base::from_le_bytes_mod_order(&two)
    )]);

    let state = pad_state(to_field_elements::<Bn>(&two), 4);
    assert_eq!(state, vec![small(7), small(9), small(0), small(0)]);
}

#[test]
fn byte_variables_are_packed_like_bytes() {
    let mut two = vec![0u8; 33];
    two[0] = 7;
    two[32] = 9;
    let mut circuit = Circuit::<Bn>::new();
    let input = circuit.byte_witnesses(&two);
    assert_eq!(circuit.num_byte_gates(), 33);
    let packed = to_field_var_elements(&mut circuit, &input);
    assert_eq!(packed.len(), 2);
    assert_eq!(packed[0].value().unwrap(), small(7));
    assert_eq!(packed[1].value().unwrap(), small(9));
    // The second chunk is filled up with 31 constant zero bytes.
    assert_eq!(circuit.num_byte_gates(), 33 + 31);
    assert_eq!(circuit.byte_gate(0), ByteGate::Witness);
    assert_eq!(circuit.byte_gate(33), ByteGate::Constant(0));
    assert_eq!(circuit.byte_value_at(0), Some(7));
    assert_eq!(circuit.byte_value_at(63), Some(0));
    assert_eq!(*circuit.gate(0), Gate::Pack((0..32).collect()));
    assert_eq!(*circuit.gate(1), Gate::Pack((32..64).collect()));
    assert_eq!(circuit.value_at(1), Some(small(9)));
}

#[test]
fn circuit_records_gates_and_values() {
    let mut circuit = Circuit::<Bls>::new();
    let a = circuit.witness(Some(small(3)));
    let b = circuit.constant(&small(4));
    let sum = circuit.add(&a, &b);
    let product = circuit.mul(&sum, &a);
    assert_eq!(sum.value().unwrap(), small(7));
    assert_eq!(product.value().unwrap(), small(21));
    assert_eq!((a.index(), b.index(), sum.index(), product.index()), (0, 1, 2, 3));
    assert_eq!(circuit.num_gates(), 4);
    assert_eq!(*circuit.gate(0), Gate::Witness);
    assert_eq!(*circuit.gate(1), Gate::Constant(small(4)));
    assert_eq!(*circuit.gate(2), Gate::Add(0, 1));
    assert_eq!(*circuit.gate(3), Gate::Mul(2, 0));
    assert_eq!(circuit.value_at(3), Some(small(21)));
    assert_eq!(product.duplicate(), product);

    let missing = circuit.witness(None);
    assert_eq!(missing.value(), Err(Error::MissingWitness));
    assert_eq!(circuit.add(&missing, &b).value(), Err(Error::MissingWitness));
    assert_eq!(circuit.mul(&b, &missing).value(), Err(Error::MissingWitness));
    assert_eq!(circuit.value_at(missing.index()), None);

    let byte = circuit.byte_constant(200);
    assert_eq!(byte.value(), Ok(200));
    assert_eq!(byte.index(), 0);
    let unknown = circuit.byte_witness(None);
    assert_eq!(circuit.pack(&[byte, unknown]).value(), Err(Error::MissingWitness));
    assert_eq!(circuit.pack(&[byte, byte]).value().unwrap(), small(200 + 256 * 200));
}

#[test]
fn errors_say_what_went_wrong() {
    assert_eq!(
        Error::WidthOverflow.message(),
        "the input packs into more elements than the permutation is wide"
    );
    assert_eq!(Error::LengthMismatch.message(), "the left and right inputs differ in length");
    assert_eq!(Error::MissingWitness.message(), "a circuit variable has no assigned value");
}
