use ark_ed_on_bls12_381::Fq;
use ark_ff::{BigInteger, Field, PrimeField};
use ark_r1cs_std::alloc::AllocVar;
use ark_r1cs_std::bits::boolean::Boolean;
use ark_r1cs_std::bits::uint8::UInt8;
use ark_r1cs_std::bits::ToBitsGadget;
use ark_r1cs_std::fields::fp::FpVar;
use ark_r1cs_std::R1CSVar;
use ark_relations::r1cs::{ConstraintSystem, ConstraintSystemRef, SynthesisError};
use ark_std::UniformRand;
use permutation_hash::circuit::{ByteGate, Circuit, FieldVar, Gate};
use permutation_hash::error::Error;
use permutation_hash::field::{FieldElement, NativeField};
use permutation_hash::poseidon::constraints::{CRHGadget, PoseidonParametersVar};
use permutation_hash::poseidon::sbox::PoseidonSbox;
use permutation_hash::poseidon::{PoseidonParameters, Rounds, CRH};

fn poseidon_to_ark<F: PrimeField + NativeField>(e: &FieldElement<F>) -> F {
    F::from_le_bytes_mod_order(&e.to_bytes())
}

fn poseidon_from_ark<F: PrimeField + NativeField>(x: F) -> FieldElement<F> {
    FieldElement::from_le_bytes_mod_order(&x.into_repr().to_bytes_le())
}

fn fe(n: u64) -> FieldElement<Fq> {
    FieldElement::from_le_bytes_mod_order(&n.to_le_bytes())
}

/// Lays the recorded circuit out in an arkworks constraint system.
fn poseidon_replay<F: PrimeField + NativeField>(
    circuit: &Circuit<F>,
    cs: ConstraintSystemRef<F>,
) -> Vec<FpVar<F>> {
    let mut bytes: Vec<UInt8<F>> = Vec::new();
    for i in 0..circuit.num_byte_gates() {
        let byte = match circuit.byte_gate(i) {
            ByteGate::Witness => UInt8::new_witness(cs.clone(), || {
                circuit.byte_value_at(i).ok_or(SynthesisError::AssignmentMissing)
            })
            .unwrap(),
            ByteGate::Constant(value) => UInt8::constant(value),
        };
        bytes.push(byte);
    }
    let mut vars: Vec<FpVar<F>> = Vec::new();
    for i in 0..circuit.num_gates() {
        let var = match circuit.gate(i) {
            Gate::Witness => FpVar::new_witness(cs.clone(), || {
                circuit
                    .value_at(i)
                    .map(|e| poseidon_to_ark(&e))
                    .ok_or(SynthesisError::AssignmentMissing)
            })
            .unwrap(),
            Gate::Constant(c) => FpVar::Constant(poseidon_to_ark(c)),
            Gate::Pack(positions) => {
                let chunk: Vec<UInt8<F>> = positions.iter().map(|p| bytes[*p].clone()).collect();
                Boolean::le_bits_to_fp_var(&chunk.to_bits_le().unwrap()).unwrap()
            }
            Gate::Add(a, b) => &vars[*a] + &vars[*b],
            Gate::Mul(a, b) => &vars[*a] * &vars[*b],
        };
        vars.push(var);
    }
    vars
}

fn rounds3() -> Rounds {
    Rounds { width: 3, full_rounds: 8, partial_rounds: 57, sbox: PoseidonSbox::Exponentiation(5) }
}

fn parameters_for(rounds: &Rounds) -> PoseidonParameters<Fq> {
    let rng = &mut ark_std::test_rng();
    let count = (rounds.full_rounds + rounds.partial_rounds) * rounds.width;
    let round_keys = (0..count).map(|_| poseidon_from_ark(Fq::rand(rng))).collect();
    let mds = (0..rounds.width)
        .map(|_| (0..rounds.width).map(|_| poseidon_from_ark(Fq::rand(rng))).collect())
        .collect();
    PoseidonParameters::new(round_keys, mds)
}

fn poseidon_native_and_gadget(rounds: Rounds, params: &PoseidonParameters<Fq>, input: &[u8]) {
    let res = CRH::new(rounds).evaluate(params, input).unwrap();

    let mut circuit = Circuit::<Fq>::new();
    let params_var = PoseidonParametersVar::new_variable(&mut circuit, params);
    let input_var = circuit.byte_witnesses(input);
    let res_var = CRHGadget::new(rounds).evaluate(&mut circuit, &params_var, &input_var).unwrap();
    assert_eq!(res, res_var.value().unwrap());

    let cs = ConstraintSystem::<Fq>::new_ref();
    let vars = poseidon_replay(&circuit, cs.clone());
    assert_eq!(poseidon_to_ark(&res), vars[res_var.index()].value().unwrap());
    assert!(cs.is_satisfied().unwrap());
}

#[test]
fn test_poseidon_native_equality() {
    let rounds = rounds3();
    let params = parameters_for(&rounds);
    assert!(params.check_fits(&rounds));

    // Three field elements: the input is aligned to the chunk size of 32
    // bytes and needs no padding.
    let mut aligned_inp = Vec::new();
    for n in 0u64..3 {
        aligned_inp.extend_from_slice(&Fq::from(n).into_repr().to_bytes_le());
    }
    poseidon_native_and_gadget(rounds, &params, &aligned_inp);

    // Six bytes: the input is not aligned and is padded with zero bytes.
    let unaligned_inp: Vec<u8> = vec![1, 2, 3, 4, 5, 6];
    poseidon_native_and_gadget(rounds, &params, &unaligned_inp);
}

/// The permutation written out on arkworks elements, with one cursor into
/// the round keys that runs through all three phases.
fn permute_by_hand(rounds: &Rounds, keys: &[Fq], mds: &[Vec<Fq>], state: &[Fq]) -> Vec<Fq> {
    let PoseidonSbox::Exponentiation(degree) = rounds.sbox;
    let mut state = state.to_vec();
    let mut cursor = 0;
    let half = rounds.full_rounds / 2;
    for round in 0..(2 * half + rounds.partial_rounds) {
        let full = round < half || round >= half + rounds.partial_rounds;
        for i in 0..rounds.width {
            state[i] += keys[cursor];
            cursor += 1;
            if full || i == 0 {
                state[i] = state[i].pow([degree as u64]);
            }
        }
        let mut mixed = Vec::new();
        for i in 0..rounds.width {
            let mut sum = Fq::from(0u64);
            for j in 0..rounds.width {
                sum += mds[i][j] * state[j];
            }
            mixed.push(sum);
        }
        state = mixed;
    }
    state
}

#[test]
fn poseidon_permutation_matches_the_rounds_written_out() {
    let rounds = rounds3();
    let params = parameters_for(&rounds);
    let keys: Vec<Fq> = params.round_keys.iter().map(poseidon_to_ark).collect();
    let mds: Vec<Vec<Fq>> =
        params.mds_matrix.iter().map(|row| row.iter().map(poseidon_to_ark).collect()).collect();
    let crh = CRH::new(rounds);
    let out = crh.permute(&params, vec![fe(1), fe(2), fe(3)]);
    let want = permute_by_hand(
        &rounds,
        &keys,
        &mds,
        &[Fq::from(1u64), Fq::from(2u64), Fq::from(3u64)],
    );
    assert_eq!(out.iter().map(poseidon_to_ark).collect::<Vec<Fq>>(), want);

    // The hash is the first element of the permuted, zero-filled packed state.
    let hash = crh.evaluate(&params, &[1, 2, 3, 4, 5, 6]).unwrap();
    let packed = Fq::from(0x0000_0605_0403_0201u64);
    let want = permute_by_hand(&rounds, &keys, &mds, &[packed, Fq::from(0u64), Fq::from(0u64)]);
    assert_eq!(poseidon_to_ark(&hash), want[0]);
}

#[test]
fn poseidon_round_keys_are_read_in_one_run() {
    // One full round, one partial round, one full round, on two elements,
    // with small numbers that never reach the modulus.
    let rounds =
        Rounds { width: 2, full_rounds: 2, partial_rounds: 1, sbox: PoseidonSbox::Exponentiation(2) };
    let keys = vec![fe(1), fe(2), fe(3), fe(4), fe(5), fe(6)];
    let mds = vec![vec![fe(1), fe(1)], vec![fe(1), fe(2)]];
    let params = PoseidonParameters::new(keys, mds);
    assert!(params.check_fits(&rounds));
    let out = CRH::new(rounds).permute(&params, vec![fe(0), fe(1)]);
    // Full round, keys 1 and 2: (0+1)^2 = 1, (1+2)^2 = 9; mixed: (10, 19).
    // Partial round, keys 3 and 4: (10+3)^2 = 169, 19+4 = 23; mixed: (192, 215).
    // Full round, keys 5 and 6: (192+5)^2 = 38809, (215+6)^2 = 48841; mixed: (87650, 136491).
    assert_eq!(out, vec![fe(87650), fe(136491)]);

    // With the keys of the partial round exchanged the result differs.
    let swapped = PoseidonParameters::new(
        vec![fe(1), fe(2), fe(4), fe(3), fe(5), fe(6)],
        vec![vec![fe(1), fe(1)], vec![fe(1), fe(2)]],
    );
    assert_ne!(CRH::new(rounds).permute(&swapped, vec![fe(0), fe(1)]), out);

    let mut circuit = Circuit::<Fq>::new();
    let params_var = PoseidonParametersVar::new_variable(&mut circuit, &params);
    let state = vec![circuit.witness(Some(fe(0))), circuit.witness(Some(fe(1)))];
    let out_var = CRHGadget::new(rounds).permute(&mut circuit, &params_var, state);
    let values: Vec<FieldElement<Fq>> = out_var.iter().map(|v| v.value().unwrap()).collect();
    assert_eq!(values, out);
}

#[test]
fn poseidon_linear_layer_multiplies_by_the_matrix() {
    let mds = vec![vec![fe(1), fe(2)], vec![fe(3), fe(4)]];
    let state = vec![fe(5), fe(6)];
    assert_eq!(CRH::apply_linear_layer(&state, &mds), vec![fe(17), fe(39)]);

    let mut circuit = Circuit::<Fq>::new();
    let mds_var: Vec<Vec<FieldVar<Fq>>> =
        mds.iter().map(|row| row.iter().map(|e| circuit.constant(e)).collect()).collect();
    let state_var = vec![circuit.witness(Some(fe(5))), circuit.witness(Some(fe(6)))];
    let out = CRHGadget::apply_linear_layer(&mut circuit, &state_var, &mds_var);
    assert_eq!(out[0].value().unwrap(), fe(17));
    assert_eq!(out[1].value().unwrap(), fe(39));
}

#[test]
fn poseidon_rejects_input_wider_than_the_instance() {
    let rounds = rounds3();
    let params = parameters_for(&rounds);
    assert!(CRH::new(rounds).evaluate(&params, &vec![1u8; 96]).is_ok());
    let too_long = vec![1u8; 97];
    assert_eq!(CRH::new(rounds).evaluate(&params, &too_long), Err(Error::WidthOverflow));

    let mut circuit = Circuit::<Fq>::new();
    let params_var = PoseidonParametersVar::new_variable(&mut circuit, &params);
    let input_var = circuit.byte_witnesses(&too_long);
    let before = circuit.clone();
    let res = CRHGadget::new(rounds).evaluate(&mut circuit, &params_var, &input_var);
    assert_eq!(res.err(), Some(Error::WidthOverflow));
    assert_eq!(circuit, before);
}

#[test]
fn poseidon_combine_rejects_inputs_of_different_lengths() {
    let rounds = rounds3();
    let params = parameters_for(&rounds);
    let left = [1u8, 2, 3];
    let right = [1u8, 2, 3, 4, 5];
    assert_eq!(CRH::new(rounds).combine(&params, &left, &right), Err(Error::LengthMismatch));
    let same = CRH::new(rounds).combine(&params, &left, &[4, 5, 6]).unwrap();
    assert_eq!(same, CRH::new(rounds).evaluate(&params, &[1, 2, 3, 4, 5, 6]).unwrap());

    let mut circuit = Circuit::<Fq>::new();
    let params_var = PoseidonParametersVar::new_variable(&mut circuit, &params);
    let left_var = circuit.byte_witnesses(&left);
    let right_var = circuit.byte_witnesses(&right);
    let res = CRHGadget::new(rounds).combine(&mut circuit, &params_var, &left_var, &right_var);
    assert_eq!(res.err(), Some(Error::LengthMismatch));
    let third = circuit.byte_witnesses(&[4, 5, 6]);
    let res = CRHGadget::new(rounds).combine(&mut circuit, &params_var, &left_var, &third);
    assert_eq!(res.unwrap().value().unwrap(), same);
}

#[test]
fn poseidon_of_width_zero_has_nothing_to_return() {
    let rounds =
        Rounds { width: 0, full_rounds: 8, partial_rounds: 0, sbox: PoseidonSbox::Exponentiation(5) };
    let params = PoseidonParameters::<Fq>::new(vec![], vec![]);
    assert!(params.check_fits(&rounds));
    assert_eq!(CRH::new(rounds).evaluate(&params, &[]), Err(Error::MissingWitness));
    assert_eq!(CRH::new(rounds).evaluate(&params, &[1]), Err(Error::WidthOverflow));
    let mut circuit = Circuit::<Fq>::new();
    let params_var = PoseidonParametersVar::<Fq>::default();
    let res = CRHGadget::new(rounds).evaluate(&mut circuit, &params_var, &[]);
    assert_eq!(res.err(), Some(Error::MissingWitness));
}

#[test]
fn poseidon_parameters_are_checked_against_the_shape() {
    let rounds = rounds3();
    let params = parameters_for(&rounds);
    assert_eq!(rounds.keys_needed(), Some(195));
    assert!(params.check_fits(&rounds));
    let wider = Rounds { width: 4, ..rounds };
    assert!(!params.check_fits(&wider));
    let longer = Rounds { partial_rounds: 58, ..rounds };
    assert!(!params.check_fits(&longer));
    let odd = Rounds { full_rounds: 9, ..rounds };
    assert!(params.check_fits(&odd));
    let no_first =
        Rounds { width: 0, full_rounds: 0, partial_rounds: 1, sbox: PoseidonSbox::Exponentiation(5) };
    assert!(!params.check_fits(&no_first));
    let huge = Rounds { partial_rounds: usize::MAX, ..rounds };
    assert_eq!(huge.keys_needed(), None);
    assert!(!params.check_fits(&huge));
}

#[test]
fn sbox_raises_to_the_power() {
    assert_eq!(PoseidonSbox::Exponentiation(5).apply_sbox(&fe(2)), fe(32));
    assert_eq!(PoseidonSbox::Exponentiation(3).apply_sbox(&fe(3)), fe(27));
    assert_eq!(PoseidonSbox::Exponentiation(1).apply_sbox(&fe(9)), fe(9));
    assert_eq!(PoseidonSbox::Exponentiation(0).apply_sbox(&fe(9)), fe(1));
    assert_eq!(PoseidonSbox::Exponentiation(17).apply_sbox(&fe(2)), fe(131072));
    let rng = &mut ark_std::test_rng();
    for degree in [2usize, 5, 6, 7, 17, 100] {
        let x = Fq::rand(rng);
        let got = PoseidonSbox::Exponentiation(degree).apply_sbox(&poseidon_from_ark(x));
        assert_eq!(poseidon_to_ark(&got), x.pow([degree as u64]));
    }
}

#[test]
fn sbox_in_circuit_asks_for_the_same_products() {
    let mut circuit = Circuit::<Fq>::new();
    let x = circuit.witness(Some(fe(2)));
    let y = PoseidonSbox::Exponentiation(5).synthesize_sbox(&mut circuit, &x);
    assert_eq!(y.value().unwrap(), fe(32));
    // x^2, x^4 and x * x^4: three products after the witness.
    assert_eq!(circuit.num_gates(), 4);
    assert_eq!(*circuit.gate(1), Gate::Mul(0, 0));
    assert_eq!(*circuit.gate(2), Gate::Mul(1, 1));
    assert_eq!(*circuit.gate(3), Gate::Mul(0, 2));

    let one = PoseidonSbox::Exponentiation(0).synthesize_sbox(&mut circuit, &x);
    assert_eq!(one.value().unwrap(), fe(1));

    let cs = ConstraintSystem::<Fq>::new_ref();
    let vars = poseidon_replay(&circuit, cs.clone());
    assert_eq!(vars[y.index()].value().unwrap(), Fq::from(32u64));
    assert_eq!(cs.num_constraints(), 3);
    assert!(cs.is_satisfied().unwrap());

    // Laid out without a witness, the circuit has the same gates and no values.
    let mut layout = Circuit::<Fq>::new();
    let unassigned = layout.witness(None);
    let power = PoseidonSbox::Exponentiation(5).synthesize_sbox(&mut layout, &unassigned);
    assert_eq!(power.value(), Err(Error::MissingWitness));
    assert_eq!(layout.num_gates(), 4);
    let still_one = PoseidonSbox::Exponentiation(0).synthesize_sbox(&mut layout, &unassigned);
    assert_eq!(still_one.value().unwrap(), fe(1));
    let setup = ConstraintSystem::<Fq>::new_ref();
    setup.set_mode(ark_relations::r1cs::SynthesisMode::Setup);
    let vars = poseidon_replay(&layout, setup.clone());
    assert!(vars[power.index()].value().is_err());
    assert_eq!(setup.num_constraints(), 3);
}
