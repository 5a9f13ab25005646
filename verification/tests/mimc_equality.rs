use ark_ed_on_bn254::Fq;
use ark_ff::{BigInteger, PrimeField};
use ark_r1cs_std::alloc::AllocVar;
use ark_r1cs_std::bits::boolean::Boolean;
use ark_r1cs_std::bits::uint8::UInt8;
use ark_r1cs_std::bits::ToBitsGadget;
use ark_r1cs_std::fields::fp::FpVar;
use ark_r1cs_std::R1CSVar;
use ark_relations::r1cs::{ConstraintSystem, ConstraintSystemRef, SynthesisError};
use ark_std::UniformRand;
use permutation_hash::circuit::{ByteGate, Circuit, Gate};
use permutation_hash::error::Error;
use permutation_hash::field::{FieldElement, NativeField};
use permutation_hash::mimc::constraints::{CRHGadget, MiMCParametersVar};
use permutation_hash::mimc::{MiMCParameters, Rounds, CRH};

const ROUNDS: usize = 220;
const WIDTH: usize = 3;

fn to_ark<F: PrimeField + NativeField>(e: &FieldElement<F>) -> F {
    F::from_le_bytes_mod_order(&e.to_bytes())
}

fn from_ark<F: PrimeField + NativeField>(x: F) -> FieldElement<F> {
    FieldElement::from_le_bytes_mod_order(&x.into_repr().to_bytes_le())
}

fn element(n: u64) -> FieldElement<Fq> {
    FieldElement::from_le_bytes_mod_order(&n.to_le_bytes())
}

/// Lays the recorded circuit out in an arkworks constraint system.
fn replay<F: PrimeField + NativeField>(
    circuit: &Circuit<F>,
    cs: ConstraintSystemRef<F>,
) -> Vec<FpVar<F>> {
    let mut bytes: Vec<UInt8<F>> = Vec::new();
    for i in 0..circuit.num_byte_gates() {
        let byte = match circuit.byte_gate(i) {
            ByteGate::Witness => UInt8::new_witness(cs.clone(), || {
                circuit.byte_value_at(i).ok_or(SynthesisError::AssignmentMissing)
            })
            .unwrap(),
            ByteGate::Constant(value) => UInt8::constant(value),
        };
        bytes.push(byte);
    }
    let mut vars: Vec<FpVar<F>> = Vec::new();
    for i in 0..circuit.num_gates() {
        let var = match circuit.gate(i) {
            Gate::Witness => FpVar::new_witness(cs.clone(), || {
                circuit
                    .value_at(i)
                    .map(|e| to_ark(&e))
                    .ok_or(SynthesisError::AssignmentMissing)
            })
            .unwrap(),
            Gate::Constant(c) => FpVar::Constant(to_ark(c)),
            Gate::Pack(positions) => {
                let chunk: Vec<UInt8<F>> = positions.iter().map(|p| bytes[*p].clone()).collect();
                Boolean::le_bits_to_fp_var(&chunk.to_bits_le().unwrap()).unwrap()
            }
            Gate::Add(a, b) => &vars[*a] + &vars[*b],
            Gate::Mul(a, b) => &vars[*a] * &vars[*b],
        };
        vars.push(var);
    }
    vars
}

fn test_parameters() -> MiMCParameters<Fq> {
    let rng = &mut ark_std::test_rng();
    let mut round_keys = Vec::new();
    for _ in 0..(ROUNDS - 2) {
        round_keys.push(from_ark(Fq::rand(rng)));
    }
    MiMCParameters::new(element(3), ROUNDS, WIDTH, WIDTH, round_keys)
}

fn aligned_input() -> Vec<u8> {
    let mut bytes = Vec::new();
    for n in 0u64..3 {
        bytes.extend_from_slice(&Fq::from(n).into_repr().to_bytes_le());
    }
    bytes
}

fn native_and_gadget(params: &MiMCParameters<Fq>, input: &[u8]) {
    let rounds = Rounds { width: WIDTH, rounds: ROUNDS };
    let res = CRH::new(rounds).evaluate(params, input).unwrap();

    let mut circuit = Circuit::<Fq>::new();
    let params_var = MiMCParametersVar::new_variable(&mut circuit, params);
    let input_var = circuit.byte_witnesses(input);
    let res_var = CRHGadget::new(rounds).evaluate(&mut circuit, &params_var, &input_var).unwrap();
    assert_eq!(res, res_var.value().unwrap());

    let cs = ConstraintSystem::<Fq>::new_ref();
    let vars = replay(&circuit, cs.clone());
    assert_eq!(to_ark(&res), vars[res_var.index()].value().unwrap());
    assert!(cs.is_satisfied().unwrap());
}

#[test]
fn test_mimc_native_equality() {
    let params = test_parameters();
    assert!(params.check_round_keys());

    // Three field elements: the input is aligned to the chunk size of 32
    // bytes and needs no padding.
    let aligned_inp = aligned_input();
    assert_eq!(aligned_inp.len(), 96);
    native_and_gadget(&params, &aligned_inp);

    // Six bytes: the input is not aligned and is padded with zero bytes.
    let unaligned_inp: Vec<u8> = vec![1, 2, 3, 4, 5, 6];
    native_and_gadget(&params, &unaligned_inp);
}

#[test]
fn mimc_unaligned_input_is_padded_with_zero_bytes() {
    let params = test_parameters();
    let crh = CRH::new(Rounds { width: WIDTH, rounds: ROUNDS });
    let short = crh.evaluate(&params, &[1, 2, 3, 4, 5, 6]).unwrap();
    let mut padded = vec![1u8, 2, 3, 4, 5, 6];
    padded.resize(32, 0);
    assert_eq!(short, crh.evaluate(&params, &padded).unwrap());
    let mut other = padded.clone();
    other[31] = 1;
    assert_ne!(short, crh.evaluate(&params, &other).unwrap());
}

#[test]
fn mimc_evaluate_is_deterministic() {
    let params = test_parameters();
    let crh = CRH::new(Rounds { width: WIDTH, rounds: ROUNDS });
    let input = aligned_input();
    let first = crh.evaluate(&params, &input).unwrap();
    let second = crh.evaluate(&params, &input).unwrap();
    assert_eq!(first, second);
    assert_eq!(first.to_bytes(), second.to_bytes());
}

#[test]
fn mimc_rejects_input_wider_than_the_instance() {
    let params = test_parameters();
    let rounds = Rounds { width: WIDTH, rounds: ROUNDS };
    let fits = vec![7u8; 96];
    assert!(CRH::new(rounds).evaluate(&params, &fits).is_ok());
    let too_long = vec![7u8; 97];
    assert_eq!(CRH::new(rounds).evaluate(&params, &too_long), Err(Error::WidthOverflow));

    let mut circuit = Circuit::<Fq>::new();
    let params_var = MiMCParametersVar::new_variable(&mut circuit, &params);
    let input_var = circuit.byte_witnesses(&too_long);
    let before = circuit.clone();
    let res = CRHGadget::new(rounds).evaluate(&mut circuit, &params_var, &input_var);
    assert_eq!(res.err(), Some(Error::WidthOverflow));
    assert_eq!(circuit, before);
}

#[test]
fn mimc_combine_rejects_inputs_of_different_lengths() {
    let params = test_parameters();
    let rounds = Rounds { width: WIDTH, rounds: ROUNDS };
    let left = [1u8, 2, 3];
    let right = [1u8, 2, 3, 4, 5];
    assert_eq!(CRH::new(rounds).combine(&params, &left, &right), Err(Error::LengthMismatch));

    let mut circuit = Circuit::<Fq>::new();
    let params_var = MiMCParametersVar::new_variable(&mut circuit, &params);
    let left_var = circuit.byte_witnesses(&left);
    let right_var = circuit.byte_witnesses(&right);
    let before = circuit.clone();
    let res = CRHGadget::new(rounds).combine(&mut circuit, &params_var, &left_var, &right_var);
    assert_eq!(res.err(), Some(Error::LengthMismatch));
    assert_eq!(circuit, before);
}

#[test]
fn mimc_combine_hashes_the_two_inputs_in_order() {
    let params = test_parameters();
    let rounds = Rounds { width: WIDTH, rounds: ROUNDS };
    let crh = CRH::new(rounds);
    let left = [1u8, 2, 3, 4];
    let right = [5u8, 6, 7, 8];
    let combined = crh.combine(&params, &left, &right).unwrap();
    assert_eq!(combined, crh.evaluate(&params, &[1, 2, 3, 4, 5, 6, 7, 8]).unwrap());
    assert_ne!(combined, crh.combine(&params, &right, &left).unwrap());

    let mut circuit = Circuit::<Fq>::new();
    let params_var = MiMCParametersVar::new_variable(&mut circuit, &params);
    let left_var = circuit.byte_witnesses(&left);
    let right_var = circuit.byte_witnesses(&right);
    let res_var = CRHGadget::new(rounds)
        .combine(&mut circuit, &params_var, &left_var, &right_var)
        .unwrap();
    assert_eq!(combined, res_var.value().unwrap());
}

/// The rounds of one Feistel evaluation, written out on arkworks elements.
fn feistel_by_hand(k: Fq, round_keys: &[Fq], rounds: usize, left: Fq, right: Fq) -> (Fq, Fq) {
    let mut x_l = left;
    let mut x_r = right;
    for i in 0..rounds {
        let c = if i == 0 || i == rounds - 1 { Fq::from(0u64) } else { round_keys[i - 1] };
        let t = if i == 0 { k + x_l } else { k + x_l + c };
        let t2 = t * t;
        let t4 = t2 * t2;
        let t5 = t4 * t;
        if i < rounds - 1 {
            let new_l = if i == 0 { x_r } else { x_r + t5 };
            x_r = x_l;
            x_l = new_l;
        } else {
            x_r = x_r + t5;
        }
    }
    (x_l, x_r)
}

#[test]
fn mimc_feistel_matches_the_rounds_written_out() {
    let params = test_parameters();
    let keys: Vec<Fq> = params.round_keys.iter().map(to_ark).collect();
    let k = to_ark(&params.k);
    let (l, r) = CRH::feistel(&params, element(11), element(22));
    let (want_l, want_r) = feistel_by_hand(k, &keys, ROUNDS, Fq::from(11u64), Fq::from(22u64));
    assert_eq!(to_ark(&l), want_l);
    assert_eq!(to_ark(&r), want_r);

    // The hash absorbs the three inputs one after the other.
    let inputs = [Fq::from(0u64), Fq::from(1u64), Fq::from(2u64)];
    let mut state = feistel_by_hand(k, &keys, ROUNDS, inputs[0], Fq::from(0u64));
    for input in &inputs[1..] {
        state = feistel_by_hand(k, &keys, ROUNDS, state.0 + input, state.1);
    }
    let hash = CRH::new(Rounds { width: WIDTH, rounds: ROUNDS })
        .evaluate(&params, &aligned_input())
        .unwrap();
    assert_eq!(to_ark(&hash), state.0);
}

#[test]
fn mimc_feistel_boundary_rounds_on_small_numbers() {
    // One round: the last round adds (k + left)^5 to the right half and does not swap.
    let one = MiMCParameters::new(element(1), 1, 1, 1, vec![]);
    assert_eq!(CRH::feistel(&one, element(1), element(0)), (element(1), element(32)));

    // Two rounds: the first only swaps, the second adds (k + left)^5 with no round key.
    let two = MiMCParameters::new(element(1), 2, 1, 1, vec![]);
    assert_eq!(CRH::feistel(&two, element(1), element(0)), (element(0), element(2)));

    // Three rounds: the middle round reads the first round key.
    let three = MiMCParameters::new(element(1), 3, 1, 1, vec![element(5)]);
    let (l, r) = CRH::feistel(&three, element(2), element(3));
    assert_eq!(l, element(59051));
    let expected_r = Fq::from(3u64) + Fq::from(59052u64) * Fq::from(59052u64)
        * Fq::from(59052u64) * Fq::from(59052u64) * Fq::from(59052u64);
    assert_eq!(to_ark(&r), expected_r);
    assert_eq!(
        r.to_bytes()[..16].to_vec(),
        (3u128 + 59052u128.pow(5)).to_le_bytes().to_vec()
    );

    // No round at all leaves the pair as it is.
    let none = MiMCParameters::new(element(1), 0, 1, 1, vec![]);
    assert_eq!(CRH::feistel(&none, element(8), element(9)), (element(8), element(9)));
}

#[test]
fn mimc_squeezes_one_output_more_than_asked_for() {
    let params = MiMCParameters::new(element(1), 2, 2, 3, vec![]);
    assert!(params.check_round_keys());
    let outs = CRH::mimc(&params, vec![element(4), element(5)]);
    assert_eq!(outs.len(), 4);
    let (l1, r1) = CRH::feistel(&params, element(4), element(0));
    let (l2, r2) = CRH::feistel(&params, l1.add(&element(5)), r1);
    assert_eq!(outs[0], l2);
    let (l3, _) = CRH::feistel(&params, l2, r2);
    assert_eq!(outs[1], l3);

    let mut circuit = Circuit::<Fq>::new();
    let params_var = MiMCParametersVar::new_variable(&mut circuit, &params);
    let a = circuit.witness(Some(element(4)));
    let b = circuit.witness(Some(element(5)));
    let outs_var = CRHGadget::mimc(&mut circuit, &params_var, vec![a, b]);
    assert_eq!(outs_var.len(), 4);
    for (out, var) in outs.iter().zip(outs_var.iter()) {
        assert_eq!(*out, var.value().unwrap());
    }
}

#[test]
fn mimc_round_keys_are_checked_against_the_rounds() {
    assert!(MiMCParameters::new(element(1), 2, 1, 1, vec![]).check_round_keys());
    assert!(!MiMCParameters::new(element(1), 3, 1, 1, vec![]).check_round_keys());
    assert!(MiMCParameters::new(element(1), 3, 1, 1, vec![element(9)]).check_round_keys());
    let mut circuit = Circuit::<Fq>::new();
    let short = MiMCParameters::new(element(1), 4, 1, 1, vec![element(9)]);
    assert!(!MiMCParametersVar::new_variable(&mut circuit, &short).check_round_keys());
    let empty = MiMCParametersVar::<Fq>::default(&mut circuit);
    assert!(empty.check_round_keys());
    assert_eq!(empty.rounds, 0);
    assert_eq!(empty.k.value().unwrap(), element(0));
}

#[test]
fn mimc_gadget_without_witness_has_no_value() {
    let params = test_parameters();
    let rounds = Rounds { width: WIDTH, rounds: ROUNDS };
    let mut circuit = Circuit::<Fq>::new();
    let params_var = MiMCParametersVar::new_variable(&mut circuit, &params);
    let input_var: Vec<_> = (0..6).map(|_| circuit.byte_witness(None)).collect();
    let res_var = CRHGadget::new(rounds).evaluate(&mut circuit, &params_var, &input_var).unwrap();
    assert_eq!(res_var.value(), Err(Error::MissingWitness));
    assert_eq!(input_var[0].value(), Err(Error::MissingWitness));

    // The same gates are asked for as with a witness.
    let mut witnessed = Circuit::<Fq>::new();
    let params_var = MiMCParametersVar::new_variable(&mut witnessed, &params);
    let input_var = witnessed.byte_witnesses(&[1, 2, 3, 4, 5, 6]);
    CRHGadget::new(rounds).evaluate(&mut witnessed, &params_var, &input_var).unwrap();
    assert_eq!(circuit.num_gates(), witnessed.num_gates());
    for i in 0..circuit.num_gates() {
        assert_eq!(circuit.gate(i), witnessed.gate(i));
    }
}
