//! The MiMC hash as a circuit: the same rounds as the native evaluation, each
//! sum and product asked of the circuit under construction.

use crate::arith::given_bytes;
use crate::circuit::all_vars_wf;
use crate::circuit::byte_vals;
use crate::circuit::bytes_in;
use crate::circuit::vals_in;
use crate::circuit::var_vals;
use crate::circuit::ByteVar;
use crate::circuit::Circuit;
use crate::circuit::FieldVar;
use crate::error::Error;
use crate::field::FieldElement;
use crate::field::NativeField;
use crate::field::PrimeModulus;
use crate::mimc::absorbed;
use crate::mimc::feistel_spec;
use crate::mimc::feistel_state;
use crate::mimc::mimc_hash;
use crate::mimc::mimc_outputs;
use crate::mimc::squeezed;
use crate::mimc::FeistelKeys;
use crate::mimc::MiMCParameters;
use crate::mimc::CRH;
use crate::mimc::Rounds;
use crate::packing::chunk_count;
use crate::packing::count_chunks;
use crate::packing::pad_state_vars;
use crate::packing::to_field_var_elements;
use vstd::prelude::*;

verus! {

/// The numbers of a MiMC instance as constants of a circuit.
#[derive(Debug, Clone, PartialEq, Eq)]
pub struct MiMCParametersVar<F: PrimeModulus> {
    pub k: FieldVar<F>,
    pub rounds: usize,
    pub num_inputs: usize,
    pub num_outputs: usize,
    pub round_keys: Vec<FieldVar<F>>,
}

impl<F: NativeField> MiMCParametersVar<F> {
    /// The keys as numbers.
    pub open spec fn keys(&self) -> FeistelKeys {
        FeistelKeys {
            k: self.k.val(),
            rounds: self.rounds as nat,
            round_keys: var_vals(self.round_keys@),
        }
    }

    /// The keys as the numbers that the variables take in `model`.
    pub open spec fn keys_in(&self, model: &Circuit<F>) -> FeistelKeys {
        FeistelKeys {
            k: self.k.val_in(model),
            rounds: self.rounds as nat,
            round_keys: vals_in(model, self.round_keys@),
        }
    }

    /// There is a round key for every round that reads one.
    pub open spec fn has_round_keys(&self) -> bool {
        self.rounds <= self.round_keys@.len() + 2
    }

    /// Every variable of the parameters is an output of the circuit.
    pub open spec fn held_by(&self, cs: &Circuit<F>) -> bool {
        &&& cs.holds(&self.k)
        &&& cs.holds_all(self.round_keys@)
    }

    /// Whether there is a round key for every round that reads one.
    pub fn check_round_keys(&self) -> (ok: bool)
        ensures
            ok == self.has_round_keys(),
    {
        self.rounds <= 2 || self.rounds - 2 <= self.round_keys.len()
    }

    /// Parameters of no rounds and no round keys, with the key zero.
    pub fn default(cs: &mut Circuit<F>) -> (r: Self)
        requires
            old(cs).wf(),
        ensures
            final(cs).wf(),
            final(cs).derives(old(cs)),
            r.held_by(final(cs)),
            r.k.val() == Some(0nat),
            r.rounds == 0,
            r.num_inputs == 0,
            r.num_outputs == 0,
            r.round_keys@.len() == 0,
            forall|m: Circuit<F>| #[trigger]
                final(cs).admits(&m) ==> old(cs).admits(&m) && r.k.val_in(&m) == Some(0nat),
    {
        let zero = FieldElement::<F>::zero();
        MiMCParametersVar {
            k: cs.constant(&zero),
            rounds: 0,
            num_inputs: 0,
            num_outputs: 0,
            round_keys: Vec::new(),
        }
    }

    /// The parameters as constants of the circuit: they are public, so none
    /// of them is a witness.
    pub fn new_variable(cs: &mut Circuit<F>, parameters: &MiMCParameters<F>) -> (r: Self)
        requires
            old(cs).wf(),
        ensures
            final(cs).wf(),
            final(cs).derives(old(cs)),
            r.held_by(final(cs)),
            r.keys() == parameters.keys(),
            r.round_keys@.len() == parameters.round_keys@.len(),
            r.rounds == parameters.rounds,
            r.num_inputs == parameters.num_inputs,
            r.num_outputs == parameters.num_outputs,
            forall|m: Circuit<F>| #[trigger]
                final(cs).admits(&m) ==> old(cs).admits(&m) && r.keys_in(&m) == parameters.keys(),
    {
        let ghost start_cs = *cs;
        let mut round_keys_var: Vec<FieldVar<F>> = Vec::new();
        let mut i: usize = 0;
        while i < parameters.round_keys.len()
            invariant
                i <= parameters.round_keys@.len(),
                cs.wf(),
                cs.derives(&start_cs),
                cs.holds_all(round_keys_var@),
                round_keys_var@.len() == i,
                forall|m: int|
                    0 <= m < i ==> (#[trigger] round_keys_var@[m]).val() == Some(
                        parameters.round_keys@[m]@,
                    ),
                forall|m: Circuit<F>| #[trigger]
                    cs.admits(&m) ==> start_cs.admits(&m) && forall|j: int|
                        0 <= j < i ==> (#[trigger] round_keys_var@[j]).val_in(&m) == Some(
                            parameters.round_keys@[j]@,
                        ),
            decreases parameters.round_keys@.len() - i,
        {
            let key = cs.constant(&parameters.round_keys[i]);
            round_keys_var.push(key);
            i += 1;
        }
        let k = cs.constant(&parameters.k);
        proof {
            assert(var_vals(round_keys_var@) =~= parameters.keys().round_keys);
            assert forall|m: Circuit<F>| #[trigger] cs.admits(&m) implies vals_in(
                &m,
                round_keys_var@,
            ) == parameters.keys().round_keys by {
                assert(vals_in(&m, round_keys_var@) =~= parameters.keys().round_keys);
            }
        }
        MiMCParametersVar {
            round_keys: round_keys_var,
            k,
            rounds: parameters.rounds,
            num_inputs: parameters.num_inputs,
            num_outputs: parameters.num_outputs,
        }
    }
}

/// The MiMC hash, laid out as a circuit.
#[derive(Debug, Clone, Copy, PartialEq, Eq)]
pub struct CRHGadget {
    pub rounds: Rounds,
}

impl CRHGadget {
    pub fn new(rounds: Rounds) -> (r: Self)
        ensures
            r.rounds == rounds,
    {
        CRHGadget { rounds }
    }

    /// Absorbs the state and squeezes the outputs.
    pub fn mimc<F: NativeField>(
        cs: &mut Circuit<F>,
        parameters: &MiMCParametersVar<F>,
        state: Vec<FieldVar<F>>,
    ) -> (r: Vec<FieldVar<F>>)
        requires
            old(cs).wf(),
            parameters.held_by(old(cs)),
            old(cs).holds_all(state@),
            parameters.has_round_keys(),
            state@.len() == parameters.num_inputs,
        ensures
            final(cs).wf(),
            final(cs).derives(old(cs)),
            final(cs).holds_all(r@),
            r@.len() == parameters.num_outputs + 1,
            var_vals(r@) == mimc_outputs(
                F::modulus(),
                parameters.keys(),
                var_vals(state@),
                parameters.num_outputs as nat,
            ),
            all_vars_wf(state@) ==> all_vars_wf(r@),
            forall|m: Circuit<F>| #[trigger]
                final(cs).admits(&m) ==> old(cs).admits(&m) && vals_in(&m, r@) == mimc_outputs(
                    F::modulus(),
                    parameters.keys_in(&m),
                    vals_in(&m, state@),
                    parameters.num_outputs as nat,
                ),
    {
        let ghost p = F::modulus();
        let ghost keys = parameters.keys();
        let ghost inputs = var_vals(state@);
        let ghost start_cs = *cs;
        let zero = FieldElement::<F>::zero();
        let mut l_out = cs.constant(&zero);
        let mut r_out = cs.constant(&zero);
        let mut i: usize = 0;
        while i < state.len()
            invariant
                i <= state@.len(),
                cs.wf(),
                cs.derives(&start_cs),
                parameters.held_by(&start_cs),
                start_cs.holds_all(state@),
                cs.holds(&l_out),
                cs.holds(&r_out),
                parameters.has_round_keys(),
                zero.wf(),
                zero@ == 0,
                p == F::modulus(),
                keys == parameters.keys(),
                inputs == var_vals(state@),
                (l_out.val(), r_out.val()) == absorbed(p, keys, inputs, i as nat),
                all_vars_wf(state@) ==> l_out.wf() && r_out.wf(),
                forall|m: Circuit<F>| #[trigger]
                    cs.admits(&m) ==> start_cs.admits(&m) && (l_out.val_in(&m), r_out.val_in(&m))
                        == absorbed(
                        p,
                        parameters.keys_in(&m),
                        vals_in(&m, state@),
                        i as nat,
                    ),
            decreases state@.len() - i,
        {
            proof {
                assert(start_cs.holds(&state@[i as int]));
            }
            let (l, r) = if i == 0 {
                (state[i].duplicate(), cs.constant(&zero))
            } else {
                (cs.add(&l_out, &state[i]), r_out)
            };
            let res = Self::feistel(cs, parameters, l, r);
            l_out = res.0;
            r_out = res.1;
            i += 1;
        }
        let ghost after = absorbed(p, keys, inputs, inputs.len());
        let ghost width = state@.len();
        let mut outs: Vec<FieldVar<F>> = Vec::new();
        outs.push(l_out.duplicate());
        let mut j: usize = 0;
        while j < parameters.num_outputs
            invariant
                j <= parameters.num_outputs,
                cs.wf(),
                cs.derives(&start_cs),
                parameters.held_by(&start_cs),
                cs.holds(&l_out),
                cs.holds(&r_out),
                cs.holds_all(outs@),
                parameters.has_round_keys(),
                p == F::modulus(),
                keys == parameters.keys(),
                (l_out.val(), r_out.val()) == squeezed(p, keys, after, j as nat),
                all_vars_wf(state@) ==> l_out.wf() && r_out.wf(),
                outs@.len() == j + 1,
                all_vars_wf(state@) ==> all_vars_wf(outs@),
                forall|m: int|
                    0 <= m <= j ==> (#[trigger] outs@[m]).val() == squeezed(
                        p,
                        keys,
                        after,
                        m as nat,
                    ).0,
                width == state@.len(),
                forall|m: Circuit<F>| #[trigger]
                    cs.admits(&m) ==> start_cs.admits(&m) && (l_out.val_in(&m), r_out.val_in(&m))
                        == squeezed(
                        p,
                        parameters.keys_in(&m),
                        absorbed(p, parameters.keys_in(&m), vals_in(&m, state@), width),
                        j as nat,
                    ) && forall|n: int|
                        0 <= n <= j ==> (#[trigger] outs@[n]).val_in(&m) == squeezed(
                            p,
                            parameters.keys_in(&m),
                            absorbed(p, parameters.keys_in(&m), vals_in(&m, state@), width),
                            n as nat,
                        ).0,
            decreases parameters.num_outputs - j,
        {
            let res = Self::feistel(cs, parameters, l_out, r_out);
            l_out = res.0;
            r_out = res.1;
            outs.push(l_out.duplicate());
            j += 1;
        }
        proof {
            assert(var_vals(outs@) =~= mimc_outputs(
                p,
                keys,
                inputs,
                parameters.num_outputs as nat,
            ));
            assert forall|m: Circuit<F>| #[trigger] cs.admits(&m) implies vals_in(&m, outs@)
                == mimc_outputs(
                p,
                parameters.keys_in(&m),
                vals_in(&m, state@),
                parameters.num_outputs as nat,
            ) by {
                assert(vals_in(&m, state@).len() == width);
                assert(vals_in(&m, outs@) =~= mimc_outputs(
                    p,
                    parameters.keys_in(&m),
                    vals_in(&m, state@),
                    parameters.num_outputs as nat,
                ));
            }
        }
        outs
    }

    /// One Feistel evaluation on the pair `(left, right)`.
    pub fn feistel<F: NativeField>(
        cs: &mut Circuit<F>,
        parameters: &MiMCParametersVar<F>,
        left: FieldVar<F>,
        right: FieldVar<F>,
    ) -> (r: (FieldVar<F>, FieldVar<F>))
        requires
            old(cs).wf(),
            parameters.held_by(old(cs)),
            old(cs).holds(&left),
            old(cs).holds(&right),
            parameters.has_round_keys(),
        ensures
            final(cs).wf(),
            final(cs).derives(old(cs)),
            final(cs).holds(&r.0),
            final(cs).holds(&r.1),
            (r.0.val(), r.1.val()) == feistel_spec(
                F::modulus(),
                parameters.keys(),
                (left.val(), right.val()),
            ),
            left.wf() && right.wf() ==> r.0.wf() && r.1.wf(),
            forall|m: Circuit<F>| #[trigger]
                final(cs).admits(&m) ==> old(cs).admits(&m) && (r.0.val_in(&m), r.1.val_in(&m))
                    == feistel_spec(
                    F::modulus(),
                    parameters.keys_in(&m),
                    (left.val_in(&m), right.val_in(&m)),
                ),
    {
        let ghost p = F::modulus();
        let ghost keys = parameters.keys();
        let ghost start = (left.val(), right.val());
        let ghost canonical = left.wf() && right.wf();
        let ghost start_cs = *cs;
        let ghost start_l = left;
        let ghost start_r = right;
        let zero = cs.constant(&FieldElement::<F>::zero());
        let mut x_l = left;
        let mut x_r = right;
        let mut i: usize = 0;
        while i < parameters.rounds
            invariant
                i <= parameters.rounds,
                cs.wf(),
                cs.derives(&start_cs),
                parameters.held_by(&start_cs),
                cs.holds(&x_l),
                cs.holds(&x_r),
                cs.holds(&zero),
                parameters.has_round_keys(),
                p == F::modulus(),
                keys == parameters.keys(),
                zero.val() == Some(0nat),
                (x_l.val(), x_r.val()) == feistel_state(p, keys, i as nat, start),
                canonical ==> x_l.wf() && x_r.wf(),
                forall|m: Circuit<F>| #[trigger]
                    cs.admits(&m) ==> start_cs.admits(&m) && zero.val_in(&m) == Some(0nat) && (
                    x_l.val_in(&m),
                    x_r.val_in(&m),
                    ) == feistel_state(
                        p,
                        parameters.keys_in(&m),
                        i as nat,
                        (start_l.val_in(&m), start_r.val_in(&m)),
                    ),
            decreases parameters.rounds - i,
        {
            let t = if i == 0 {
                cs.add(&parameters.k, &x_l)
            } else {
                let sum = cs.add(&parameters.k, &x_l);
                if i == parameters.rounds - 1 {
                    cs.add(&sum, &zero)
                } else {
                    proof {
                        assert(start_cs.holds(&parameters.round_keys@[i - 1]));
                    }
                    cs.add(&sum, &parameters.round_keys[i - 1])
                }
            };
            let t2 = cs.mul(&t, &t);
            let t4 = cs.mul(&t2, &t2);
            if i < parameters.rounds - 1 {
                if i == 0 {
                    let kept = x_l;
                    x_l = x_r;
                    x_r = kept;
                } else {
                    let t5 = cs.mul(&t4, &t);
                    let moved = cs.add(&x_r, &t5);
                    x_r = x_l;
                    x_l = moved;
                }
            } else {
                let t5 = cs.mul(&t4, &t);
                x_r = cs.add(&x_r, &t5);
            }
            i += 1;
        }
        (x_l, x_r)
    }

    /// The hash of the input bytes, as a variable of the circuit.
    ///
    /// The input is refused where it packs into more elements than the
    /// instance is wide; the circuit is then left as it was.
    pub fn evaluate<F: NativeField>(
        &self,
        cs: &mut Circuit<F>,
        parameters: &MiMCParametersVar<F>,
        input: &[ByteVar],
    ) -> (r: Result<FieldVar<F>, Error>)
        requires
            old(cs).wf(),
            parameters.held_by(old(cs)),
            old(cs).holds_bytes(input@),
            parameters.has_round_keys(),
            parameters.num_inputs == self.rounds.width,
        ensures
            final(cs).wf(),
            final(cs).derives(old(cs)),
            r is Ok <==> chunk_count(input@.len(), F::chunk_len()) <= self.rounds.width,
            r matches Ok(h) ==> final(cs).holds(&h) && h.wf() && h.val() == mimc_hash(
                F::modulus(),
                F::chunk_len(),
                parameters.keys(),
                self.rounds.width as nat,
                byte_vals(input@),
            ),
            r matches Ok(h) ==> forall|m: Circuit<F>| #[trigger]
                final(cs).admits(&m) ==> old(cs).admits(&m) && h.val_in(&m) == mimc_hash(
                    F::modulus(),
                    F::chunk_len(),
                    parameters.keys_in(&m),
                    self.rounds.width as nat,
                    bytes_in(&m, input@),
                ),
            r matches Err(e) ==> e == Error::WidthOverflow && *final(cs) == *old(cs),
    {
        proof {
            F::field_bounds();
        }
        if count_chunks(input.len(), F::chunk_size()) > self.rounds.width {
            return Err(Error::WidthOverflow);
        }
        let f_var_inputs = to_field_var_elements(cs, input);
        let buffer = pad_state_vars(cs, f_var_inputs, self.rounds.width);
        let ghost inputs = var_vals(buffer@);
        let ghost state = buffer@;
        let outs = Self::mimc(cs, parameters, buffer);
        proof {
            assert(var_vals(outs@)[0] == outs@[0].val());
            assert(inputs.len() == self.rounds.width);
            assert(cs.holds(&outs@[0]));
            assert forall|m: Circuit<F>| #[trigger] cs.admits(&m) implies outs@[0].val_in(&m)
                == mimc_hash(
                F::modulus(),
                F::chunk_len(),
                parameters.keys_in(&m),
                self.rounds.width as nat,
                bytes_in(&m, input@),
            ) by {
                assert(vals_in(&m, outs@)[0] == outs@[0].val_in(&m));
                assert(vals_in(&m, state).len() == self.rounds.width);
            }
        }
        Ok(outs[0].duplicate())
    }

    /// The hash of the two inputs, one after the other.
    ///
    /// The inputs are refused, before any gate is asked for, where they
    /// differ in length.
    pub fn combine<F: NativeField>(
        &self,
        cs: &mut Circuit<F>,
        parameters: &MiMCParametersVar<F>,
        left_input: &[ByteVar],
        right_input: &[ByteVar],
    ) -> (r: Result<FieldVar<F>, Error>)
        requires
            old(cs).wf(),
            parameters.held_by(old(cs)),
            old(cs).holds_bytes(left_input@),
            old(cs).holds_bytes(right_input@),
            parameters.has_round_keys(),
            parameters.num_inputs == self.rounds.width,
        ensures
            final(cs).wf(),
            final(cs).derives(old(cs)),
            r is Ok <==> left_input@.len() == right_input@.len() && chunk_count(
                left_input@.len() + right_input@.len(),
                F::chunk_len(),
            ) <= self.rounds.width,
            r matches Ok(h) ==> final(cs).holds(&h) && h.wf() && h.val() == mimc_hash(
                F::modulus(),
                F::chunk_len(),
                parameters.keys(),
                self.rounds.width as nat,
                byte_vals(left_input@) + byte_vals(right_input@),
            ),
            r matches Ok(h) ==> forall|m: Circuit<F>| #[trigger]
                final(cs).admits(&m) ==> old(cs).admits(&m) && h.val_in(&m) == mimc_hash(
                    F::modulus(),
                    F::chunk_len(),
                    parameters.keys_in(&m),
                    self.rounds.width as nat,
                    bytes_in(&m, left_input@) + bytes_in(&m, right_input@),
                ),
            r matches Err(e) ==> *final(cs) == *old(cs) && e == (if left_input@.len()
                != right_input@.len() {
                Error::LengthMismatch
            } else {
                Error::WidthOverflow
            }),
    {
        if left_input.len() != right_input.len() {
            return Err(Error::LengthMismatch);
        }
        let mut chained: Vec<ByteVar> = Vec::new();
        chained.extend_from_slice(left_input);
        chained.extend_from_slice(right_input);
        proof {
            assert(chained@ =~= left_input@ + right_input@);
            assert(byte_vals(chained@) =~= byte_vals(left_input@) + byte_vals(right_input@));
            assert forall|m: Circuit<F>| #[trigger]
                bytes_in(&m, chained@) == bytes_in(&m, left_input@) + bytes_in(
                    &m,
                    right_input@,
                ) by {
                assert(bytes_in(&m, chained@) =~= bytes_in(&m, left_input@) + bytes_in(
                    &m,
                    right_input@,
                ));
            }
        }
        self.evaluate(cs, parameters, chained.as_slice())
    }
}

/// The circuit computes what the native evaluation computes: where the
/// circuit's parameters stand for the native ones and its input bytes are
/// assigned the native input, both evaluations succeed or both fail with the
/// same error, and the value of the circuit's result is the native hash.
pub proof fn lemma_gadget_agrees<F: NativeField>(
    crh: &CRH,
    gadget: &CRHGadget,
    parameters: &MiMCParameters<F>,
    parameters_var: &MiMCParametersVar<F>,
    input: Seq<u8>,
    input_var: Seq<ByteVar>,
    native: Result<FieldElement<F>, Error>,
    in_circuit: Result<FieldVar<F>, Error>,
)
    requires
        gadget.rounds == crh.rounds,
        parameters_var.keys() == parameters.keys(),
        byte_vals(input_var) == given_bytes(input),
        native is Ok <==> chunk_count(input.len(), F::chunk_len()) <= crh.rounds.width,
        native matches Ok(h) ==> Some(h@) == mimc_hash(
            F::modulus(),
            F::chunk_len(),
            parameters.keys(),
            crh.rounds.width as nat,
            given_bytes(input),
        ),
        native matches Err(e) ==> e == Error::WidthOverflow,
        in_circuit is Ok <==> chunk_count(input_var.len(), F::chunk_len()) <= gadget.rounds.width,
        in_circuit matches Ok(h) ==> h.val() == mimc_hash(
            F::modulus(),
            F::chunk_len(),
            parameters_var.keys(),
            gadget.rounds.width as nat,
            byte_vals(input_var),
        ),
        in_circuit matches Err(e) ==> e == Error::WidthOverflow,
    ensures
        native is Ok <==> in_circuit is Ok,
        native matches Ok(h) ==> in_circuit matches Ok(v) && v.val() == Some(h@),
        native matches Err(e) ==> in_circuit matches Err(f) && e == f,
{
    assert(byte_vals(input_var).len() == given_bytes(input).len());
}

/// The circuit admits no other result: in every assignment that satisfies
/// the circuit after the evaluation, and in which the parameter variables
/// take the native parameters and the input bytes take the native input, the
/// result takes the native hash.
pub proof fn lemma_gadget_sound<F: NativeField>(
    gadget: &CRHGadget,
    cs: &Circuit<F>,
    model: &Circuit<F>,
    parameters: &MiMCParameters<F>,
    parameters_var: &MiMCParametersVar<F>,
    input: Seq<u8>,
    input_var: Seq<ByteVar>,
    native: FieldElement<F>,
    in_circuit: FieldVar<F>,
)
    requires
        cs.admits(model),
        parameters_var.keys_in(model) == parameters.keys(),
        bytes_in(model, input_var) == given_bytes(input),
        Some(native@) == mimc_hash(
            F::modulus(),
            F::chunk_len(),
            parameters.keys(),
            gadget.rounds.width as nat,
            given_bytes(input),
        ),
        forall|m: Circuit<F>| #[trigger]
            cs.admits(&m) ==> in_circuit.val_in(&m) == mimc_hash(
                F::modulus(),
                F::chunk_len(),
                parameters_var.keys_in(&m),
                gadget.rounds.width as nat,
                bytes_in(&m, input_var),
            ),
    ensures
        in_circuit.val_in(model) == Some(native@),
{
}

} // verus!
