//! The MiMC hash: a Feistel network over a prime field, run as a sponge.
//!
//! The permutation works on a pair `(left, right)`. The inputs are absorbed one
//! by one, each added to the left value before a Feistel evaluation, and the
//! left value that the last absorption leaves is the hash.

pub mod constraints;

use crate::arith::add_val;
use crate::arith::all_canonical;
use crate::arith::element_vals;
use crate::arith::given_bytes;
use crate::arith::mul_val;
use crate::crh::FieldHasher;
use crate::error::Error;
use crate::field::FieldElement;
use crate::field::NativeField;
use crate::field::PrimeModulus;
use crate::packing::chunk_count;
use crate::packing::count_chunks;
use crate::packing::pad_state;
use crate::packing::packed;
use crate::packing::padded_state;
use crate::packing::to_field_elements;
use vstd::prelude::*;

verus! {

/// What a Feistel evaluation is keyed with, as numbers: the key `k`, the
/// number of rounds, and the round keys.
pub struct FeistelKeys {
    pub k: Option<nat>,
    pub rounds: nat,
    pub round_keys: Seq<Option<nat>>,
}

/// The constant of round `i`: zero in the first and in the last round, and
/// the round key before `i` in between.
pub open spec fn round_constant(keys: FeistelKeys, i: nat) -> Option<nat> {
    if i == 0 || i + 1 == keys.rounds {
        Some(0nat)
    } else {
        keys.round_keys[i - 1]
    }
}

/// The fifth power that round `i` adds: `t = k + left (+ constant)`, squared
/// twice and multiplied by `t`.
pub open spec fn round_power(p: nat, keys: FeistelKeys, i: nat, left: Option<nat>) -> Option<nat> {
    let t = if i == 0 {
        add_val(p, keys.k, left)
    } else {
        add_val(p, add_val(p, keys.k, left), round_constant(keys, i))
    };
    let t2 = mul_val(p, t, t);
    let t4 = mul_val(p, t2, t2);
    mul_val(p, t4, t)
}

/// One round of the Feistel network. Every round but the last swaps the two
/// halves, and every round but the first adds the fifth power to the right
/// half before it; the last round adds it and does not swap.
pub open spec fn feistel_round(
    p: nat,
    keys: FeistelKeys,
    i: nat,
    state: (Option<nat>, Option<nat>),
) -> (Option<nat>, Option<nat>) {
    let (left, right) = state;
    if i + 1 < keys.rounds {
        if i == 0 {
            (right, left)
        } else {
            (add_val(p, right, round_power(p, keys, i, left)), left)
        }
    } else {
        (left, add_val(p, right, round_power(p, keys, i, left)))
    }
}

/// The pair after the first `n` rounds.
pub open spec fn feistel_state(
    p: nat,
    keys: FeistelKeys,
    n: nat,
    start: (Option<nat>, Option<nat>),
) -> (Option<nat>, Option<nat>)
    decreases n,
{
    if n == 0 {
        start
    } else {
        feistel_round(p, keys, (n - 1) as nat, feistel_state(p, keys, (n - 1) as nat, start))
    }
}

/// One Feistel evaluation: the pair after all the rounds.
pub open spec fn feistel_spec(
    p: nat,
    keys: FeistelKeys,
    start: (Option<nat>, Option<nat>),
) -> (Option<nat>, Option<nat>) {
    feistel_state(p, keys, keys.rounds, start)
}

/// The pair after the first `n` inputs are absorbed. The first input starts
/// the left half, beside a zero right half; each later one is added to the
/// left half; and one Feistel evaluation follows each.
pub open spec fn absorbed(p: nat, keys: FeistelKeys, inputs: Seq<Option<nat>>, n: nat) -> (
    Option<nat>,
    Option<nat>,
)
    decreases n,
{
    if n == 0 {
        (Some(0nat), Some(0nat))
    } else if n == 1 {
        feistel_spec(p, keys, (inputs[0], Some(0nat)))
    } else {
        let (left, right) = absorbed(p, keys, inputs, (n - 1) as nat);
        feistel_spec(p, keys, (add_val(p, left, inputs[n - 1]), right))
    }
}

/// The pair after `n` further Feistel evaluations.
pub open spec fn squeezed(p: nat, keys: FeistelKeys, start: (Option<nat>, Option<nat>), n: nat) -> (
    Option<nat>,
    Option<nat>,
)
    decreases n,
{
    if n == 0 {
        start
    } else {
        feistel_spec(p, keys, squeezed(p, keys, start, (n - 1) as nat))
    }
}

/// The outputs of the sponge: the left half after the absorption, and the
/// left half after each of `num_outputs` further evaluations.
pub open spec fn mimc_outputs(
    p: nat,
    keys: FeistelKeys,
    inputs: Seq<Option<nat>>,
    num_outputs: nat,
) -> Seq<Option<nat>> {
    Seq::new(
        num_outputs + 1,
        |j: int| squeezed(p, keys, absorbed(p, keys, inputs, inputs.len()), j as nat).0,
    )
}

/// The MiMC hash of a byte string: the bytes are packed into a state of
/// `width` elements, and the hash is the first output of the sponge.
pub open spec fn mimc_hash(
    p: nat,
    chunk_len: nat,
    keys: FeistelKeys,
    width: nat,
    bytes: Seq<Option<u8>>,
) -> Option<nat> {
    absorbed(p, keys, padded_state(packed(p, chunk_len, bytes), width), width).0
}

/// The shape of a MiMC instance: how many elements an input may pack into,
/// and how many rounds one Feistel evaluation runs.
#[derive(Debug, Clone, Copy, PartialEq, Eq)]
pub struct Rounds {
    pub width: usize,
    pub rounds: usize,
}

/// The numbers of a MiMC instance.
#[derive(Debug, Clone, PartialEq, Eq)]
pub struct MiMCParameters<F: PrimeModulus> {
    pub k: FieldElement<F>,
    pub rounds: usize,
    pub num_inputs: usize,
    pub num_outputs: usize,
    pub round_keys: Vec<FieldElement<F>>,
}

impl<F: NativeField> MiMCParameters<F> {
    pub fn new(
        k: FieldElement<F>,
        rounds: usize,
        num_inputs: usize,
        num_outputs: usize,
        round_keys: Vec<FieldElement<F>>,
    ) -> (r: Self)
        ensures
            r.k == k,
            r.rounds == rounds,
            r.num_inputs == num_inputs,
            r.num_outputs == num_outputs,
            r.round_keys == round_keys,
    {
        MiMCParameters { k, rounds, num_inputs, num_outputs, round_keys }
    }

    /// The keys as numbers.
    pub open spec fn keys(&self) -> FeistelKeys {
        FeistelKeys {
            k: Some(self.k@),
            rounds: self.rounds as nat,
            round_keys: element_vals(self.round_keys@),
        }
    }

    /// There is a round key for every round that reads one.
    pub open spec fn has_round_keys(&self) -> bool {
        self.rounds <= self.round_keys@.len() + 2
    }

    /// Whether there is a round key for every round that reads one.
    pub fn check_round_keys(&self) -> (ok: bool)
        ensures
            ok == self.has_round_keys(),
    {
        self.rounds <= 2 || self.rounds - 2 <= self.round_keys.len()
    }
}

/// The MiMC hash, evaluated on field elements.
#[derive(Debug, Clone, Copy, PartialEq, Eq)]
pub struct CRH {
    pub rounds: Rounds,
}

impl CRH {
    pub fn new(rounds: Rounds) -> (r: Self)
        ensures
            r.rounds == rounds,
    {
        CRH { rounds }
    }

    /// One Feistel evaluation on the pair `(left, right)`.
    pub fn feistel<F: NativeField>(
        parameters: &MiMCParameters<F>,
        left: FieldElement<F>,
        right: FieldElement<F>,
    ) -> (r: (FieldElement<F>, FieldElement<F>))
        requires
            parameters.has_round_keys(),
        ensures
            (Some(r.0@), Some(r.1@)) == feistel_spec(
                F::modulus(),
                parameters.keys(),
                (Some(left@), Some(right@)),
            ),
            left.wf() && right.wf() ==> r.0.wf() && r.1.wf(),
    {
        let ghost p = F::modulus();
        let ghost keys = parameters.keys();
        let ghost start = (Some(left@), Some(right@));
        let ghost canonical = left.wf() && right.wf();
        let zero = FieldElement::<F>::zero();
        let mut x_l = left;
        let mut x_r = right;
        let mut i: usize = 0;
        while i < parameters.rounds
            invariant
                i <= parameters.rounds,
                parameters.has_round_keys(),
                p == F::modulus(),
                keys == parameters.keys(),
                zero@ == 0,
                (Some(x_l@), Some(x_r@)) == feistel_state(p, keys, i as nat, start),
                canonical ==> x_l.wf() && x_r.wf(),
            decreases parameters.rounds - i,
        {
            let t = if i == 0 {
                parameters.k.add(&x_l)
            } else {
                let c = if i == parameters.rounds - 1 {
                    &zero
                } else {
                    &parameters.round_keys[i - 1]
                };
                parameters.k.add(&x_l).add(c)
            };
            let t2 = t.mul(&t);
            let t4 = t2.mul(&t2);
            if i < parameters.rounds - 1 {
                if i == 0 {
                    let kept = x_l;
                    x_l = x_r;
                    x_r = kept;
                } else {
                    let moved = x_r.add(&t4.mul(&t));
                    x_r = x_l;
                    x_l = moved;
                }
            } else {
                x_r = x_r.add(&t4.mul(&t));
            }
            i += 1;
        }
        (x_l, x_r)
    }

    /// Absorbs the state and squeezes the outputs.
    pub fn mimc<F: NativeField>(parameters: &MiMCParameters<F>, state: Vec<FieldElement<F>>) -> (r: Vec<
        FieldElement<F>,
    >)
        requires
            parameters.has_round_keys(),
            state@.len() == parameters.num_inputs,
        ensures
            r@.len() == parameters.num_outputs + 1,
            element_vals(r@) == mimc_outputs(
                F::modulus(),
                parameters.keys(),
                element_vals(state@),
                parameters.num_outputs as nat,
            ),
            all_canonical(state@) ==> all_canonical(r@),
    {
        let ghost p = F::modulus();
        let ghost keys = parameters.keys();
        let ghost inputs = element_vals(state@);
        let mut l_out = FieldElement::<F>::zero();
        let mut r_out = FieldElement::<F>::zero();
        let mut i: usize = 0;
        while i < state.len()
            invariant
                i <= state@.len(),
                parameters.has_round_keys(),
                p == F::modulus(),
                keys == parameters.keys(),
                inputs == element_vals(state@),
                (Some(l_out@), Some(r_out@)) == absorbed(p, keys, inputs, i as nat),
                all_canonical(state@) ==> l_out.wf() && r_out.wf(),
            decreases state@.len() - i,
        {
            let (l, r) = if i == 0 {
                (state[i].clone(), FieldElement::<F>::zero())
            } else {
                (l_out.add(&state[i]), r_out)
            };
            let res = Self::feistel(parameters, l, r);
            l_out = res.0;
            r_out = res.1;
            i += 1;
        }
        let ghost after = absorbed(p, keys, inputs, inputs.len());
        let mut outs: Vec<FieldElement<F>> = Vec::new();
        outs.push(l_out.clone());
        let mut j: usize = 0;
        while j < parameters.num_outputs
            invariant
                j <= parameters.num_outputs,
                parameters.has_round_keys(),
                p == F::modulus(),
                keys == parameters.keys(),
                (Some(l_out@), Some(r_out@)) == squeezed(p, keys, after, j as nat),
                all_canonical(state@) ==> l_out.wf() && r_out.wf(),
                outs@.len() == j + 1,
                all_canonical(state@) ==> all_canonical(outs@),
                forall|m: int|
                    0 <= m <= j ==> Some((#[trigger] outs@[m])@) == squeezed(
                        p,
                        keys,
                        after,
                        m as nat,
                    ).0,
            decreases parameters.num_outputs - j,
        {
            let res = Self::feistel(parameters, l_out, r_out);
            l_out = res.0;
            r_out = res.1;
            outs.push(l_out.clone());
            j += 1;
        }
        proof {
            assert(element_vals(outs@) =~= mimc_outputs(
                p,
                keys,
                inputs,
                parameters.num_outputs as nat,
            ));
        }
        outs
    }

    /// The hash of the input bytes.
    ///
    /// The input is refused where it packs into more elements than the
    /// instance is wide.
    pub fn evaluate<F: NativeField>(&self, parameters: &MiMCParameters<F>, input: &[u8]) -> (r: Result<
        FieldElement<F>,
        Error,
    >)
        requires
            parameters.has_round_keys(),
            parameters.num_inputs == self.rounds.width,
        ensures
            r is Ok <==> chunk_count(input@.len(), F::chunk_len()) <= self.rounds.width,
            r matches Ok(h) ==> h.wf() && Some(h@) == mimc_hash(
                F::modulus(),
                F::chunk_len(),
                parameters.keys(),
                self.rounds.width as nat,
                given_bytes(input@),
            ),
            r matches Err(e) ==> e == Error::WidthOverflow,
    {
        proof {
            F::field_bounds();
        }
        if count_chunks(input.len(), F::chunk_size()) > self.rounds.width {
            return Err(Error::WidthOverflow);
        }
        let elements = to_field_elements::<F>(input);
        let buffer = pad_state(elements, self.rounds.width);
        let ghost inputs = element_vals(buffer@);
        let outs = Self::mimc(parameters, buffer);
        proof {
            assert(element_vals(outs@)[0] == Some(outs@[0]@));
            assert(inputs.len() == self.rounds.width);
        }
        Ok(outs[0].clone())
    }

    /// The hash of the two inputs, one after the other.
    ///
    /// The inputs are refused, before any hashing, where they differ in length.
    pub fn combine<F: NativeField>(
        &self,
        parameters: &MiMCParameters<F>,
        left_input: &[u8],
        right_input: &[u8],
    ) -> (r: Result<FieldElement<F>, Error>)
        requires
            parameters.has_round_keys(),
            parameters.num_inputs == self.rounds.width,
        ensures
            r is Ok <==> left_input@.len() == right_input@.len() && chunk_count(
                left_input@.len() + right_input@.len(),
                F::chunk_len(),
            ) <= self.rounds.width,
            r matches Ok(h) ==> h.wf() && Some(h@) == mimc_hash(
                F::modulus(),
                F::chunk_len(),
                parameters.keys(),
                self.rounds.width as nat,
                given_bytes(left_input@) + given_bytes(right_input@),
            ),
            r matches Err(e) ==> e == (if left_input@.len() != right_input@.len() {
                Error::LengthMismatch
            } else {
                Error::WidthOverflow
            }),
    {
        if left_input.len() != right_input.len() {
            return Err(Error::LengthMismatch);
        }
        let mut chained: Vec<u8> = Vec::new();
        chained.extend_from_slice(left_input);
        chained.extend_from_slice(right_input);
        proof {
            assert(chained@ =~= left_input@ + right_input@);
            assert(given_bytes(chained@) =~= given_bytes(left_input@) + given_bytes(right_input@));
        }
        self.evaluate(parameters, chained.as_slice())
    }
}

impl<F: NativeField> FieldHasher<F> for CRH {
    type Parameters = MiMCParameters<F>;

    open spec fn accepts(&self, parameters: &MiMCParameters<F>) -> bool {
        parameters.has_round_keys() && parameters.num_inputs == self.rounds.width
    }

    open spec fn outcome(&self, parameters: &MiMCParameters<F>, input: Seq<u8>) -> Result<
        nat,
        Error,
    > {
        if chunk_count(input.len(), F::chunk_len()) > self.rounds.width {
            Err(Error::WidthOverflow)
        } else {
            Ok(
                mimc_hash(
                    F::modulus(),
                    F::chunk_len(),
                    parameters.keys(),
                    self.rounds.width as nat,
                    given_bytes(input),
                ).unwrap(),
            )
        }
    }

    fn evaluate(&self, parameters: &MiMCParameters<F>, input: &[u8]) -> (r: Result<
        FieldElement<F>,
        Error,
    >) {
        CRH::evaluate(self, parameters, input)
    }
}

} // verus!
