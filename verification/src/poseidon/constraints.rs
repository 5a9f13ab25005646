//! The Poseidon hash as a circuit: the same rounds as the native evaluation,
//! each sum and product asked of the circuit under construction.

use crate::arith::given_bytes;
use crate::circuit::all_vars_wf;
use crate::arith::add_val;
use crate::arith::canonical;
use crate::arith::lemma_add_val_canonical;
use crate::circuit::byte_vals;
use crate::circuit::bytes_in;
use crate::circuit::vals_in;
use crate::circuit::var_vals;
use crate::circuit::ByteVar;
use crate::circuit::Circuit;
use crate::circuit::FieldVar;
use crate::error::Error;
use crate::field::FieldElement;
use crate::field::NativeField;
use crate::field::PrimeModulus;
use crate::packing::chunk_count;
use crate::packing::count_chunks;
use crate::packing::pad_state_vars;
use crate::packing::to_field_var_elements;
use crate::poseidon::dot;
use crate::poseidon::keyed;
use crate::poseidon::lemma_round_offset;
use crate::poseidon::matrix_covers;
use crate::poseidon::mixed;
use crate::poseidon::permute_spec;
use crate::poseidon::permuted;
use crate::poseidon::poseidon_hash;
use crate::poseidon::round_of;
use crate::poseidon::substituted;
use crate::poseidon::PermutationKeys;
use crate::poseidon::PoseidonParameters;
use crate::poseidon::Rounds;
use crate::poseidon::CRH;
use vstd::prelude::*;

verus! {

/// The numbers of a Poseidon instance as constants of a circuit.
#[derive(Debug, Clone, PartialEq, Eq)]
pub struct PoseidonParametersVar<F: PrimeModulus> {
    /// The round keys.
    pub round_keys: Vec<FieldVar<F>>,
    /// The mixing matrix, row by row.
    pub mds_matrix: Vec<Vec<FieldVar<F>>>,
}

/// The rows of a matrix of variables, as numbers.
pub open spec fn matrix_var_vals<F: PrimeModulus>(rows: Seq<Vec<FieldVar<F>>>) -> Seq<
    Seq<Option<nat>>,
> {
    Seq::new(rows.len(), |i: int| var_vals(rows[i]@))
}

/// The rows of a matrix of variables, as the numbers that they take in `model`.
pub open spec fn matrix_vals_in<F: PrimeModulus>(
    model: &Circuit<F>,
    rows: Seq<Vec<FieldVar<F>>>,
) -> Seq<Seq<Option<nat>>> {
    Seq::new(rows.len(), |i: int| vals_in(model, rows[i]@))
}

/// Every variable of the matrix is an output of the circuit.
pub open spec fn matrix_held<F: PrimeModulus>(cs: &Circuit<F>, rows: Seq<Vec<FieldVar<F>>>) -> bool {
    forall|i: int| 0 <= i < rows.len() ==> cs.holds_all((#[trigger] rows[i])@)
}

impl<F: PrimeModulus> Default for PoseidonParametersVar<F> {
    /// Parameters with no round keys and an empty matrix.
    fn default() -> (r: Self)
        ensures
            r.round_keys@.len() == 0,
            r.mds_matrix@.len() == 0,
    {
        PoseidonParametersVar { round_keys: Vec::new(), mds_matrix: Vec::new() }
    }
}

impl<F: NativeField> PoseidonParametersVar<F> {
    /// The keys as numbers.
    pub open spec fn keys(&self) -> PermutationKeys {
        PermutationKeys {
            round_keys: var_vals(self.round_keys@),
            mds: matrix_var_vals(self.mds_matrix@),
        }
    }

    /// The keys as the numbers that the variables take in `model`.
    pub open spec fn keys_in(&self, model: &Circuit<F>) -> PermutationKeys {
        PermutationKeys {
            round_keys: vals_in(model, self.round_keys@),
            mds: matrix_vals_in(model, self.mds_matrix@),
        }
    }

    /// Every variable of the parameters is an output of the circuit.
    pub open spec fn held_by(&self, cs: &Circuit<F>) -> bool {
        &&& cs.holds_all(self.round_keys@)
        &&& matrix_held(cs, self.mds_matrix@)
    }

    /// The parameters fit the shape, as `PoseidonParameters::fits` says.
    pub open spec fn fits(&self, rounds: &Rounds) -> bool {
        &&& self.round_keys@.len() >= rounds.shape().total_rounds() * rounds.width
        &&& matrix_covers(self.mds_matrix@, rounds.width as nat)
        &&& rounds.partial_rounds > 0 ==> rounds.width > 0
    }

    /// The parameters as constants of the circuit: they are public, so none
    /// of them is a witness.
    pub fn new_variable(cs: &mut Circuit<F>, parameters: &PoseidonParameters<F>) -> (r: Self)
        requires
            old(cs).wf(),
        ensures
            final(cs).wf(),
            final(cs).derives(old(cs)),
            r.held_by(final(cs)),
            r.keys() == parameters.keys(),
            forall|rounds: Rounds| #[trigger] parameters.fits(&rounds) ==> r.fits(&rounds),
            forall|m: Circuit<F>| #[trigger]
                final(cs).admits(&m) ==> old(cs).admits(&m) && r.keys_in(&m) == parameters.keys(),
    {
        let ghost start_cs = *cs;
        let mut round_keys_var: Vec<FieldVar<F>> = Vec::new();
        let mut i: usize = 0;
        while i < parameters.round_keys.len()
            invariant
                i <= parameters.round_keys@.len(),
                cs.wf(),
                cs.derives(&start_cs),
                cs.holds_all(round_keys_var@),
                round_keys_var@.len() == i,
                forall|m: int|
                    0 <= m < i ==> (#[trigger] round_keys_var@[m]).val() == Some(
                        parameters.round_keys@[m]@,
                    ),
                forall|m: Circuit<F>| #[trigger]
                    cs.admits(&m) ==> start_cs.admits(&m) && forall|j: int|
                        0 <= j < i ==> (#[trigger] round_keys_var@[j]).val_in(&m) == Some(
                            parameters.round_keys@[j]@,
                        ),
            decreases parameters.round_keys@.len() - i,
        {
            let key = cs.constant(&parameters.round_keys[i]);
            round_keys_var.push(key);
            i += 1;
        }
        let ghost keys_cs = *cs;
        let mut mds_var: Vec<Vec<FieldVar<F>>> = Vec::new();
        let mut i: usize = 0;
        while i < parameters.mds_matrix.len()
            invariant
                i <= parameters.mds_matrix@.len(),
                cs.wf(),
                cs.derives(&start_cs),
                cs.holds_all(round_keys_var@),
                matrix_held(cs, mds_var@),
                mds_var@.len() == i,
                forall|m: int|
                    0 <= m < i ==> var_vals((#[trigger] mds_var@[m])@)
                        == crate::arith::element_vals(parameters.mds_matrix@[m]@),
                forall|m: Circuit<F>| #[trigger]
                    cs.admits(&m) ==> keys_cs.admits(&m) && forall|n: int|
                        0 <= n < i ==> vals_in(&m, (#[trigger] mds_var@[n])@)
                            == crate::arith::element_vals(parameters.mds_matrix@[n]@),
            decreases parameters.mds_matrix@.len() - i,
        {
            let row = &parameters.mds_matrix[i];
            let ghost row_cs = *cs;
            let mut row_var: Vec<FieldVar<F>> = Vec::new();
            let mut j: usize = 0;
            while j < row.len()
                invariant
                    j <= row@.len(),
                    cs.wf(),
                    cs.derives(&start_cs),
                    cs.holds_all(round_keys_var@),
                    matrix_held(cs, mds_var@),
                    cs.holds_all(row_var@),
                    row_var@.len() == j,
                    forall|m: int|
                        0 <= m < j ==> (#[trigger] row_var@[m]).val() == Some(row@[m]@),
                    forall|m: Circuit<F>| #[trigger]
                        cs.admits(&m) ==> row_cs.admits(&m) && forall|n: int|
                            0 <= n < j ==> (#[trigger] row_var@[n]).val_in(&m) == Some(row@[n]@),
                decreases row@.len() - j,
            {
                let entry = cs.constant(&row[j]);
                row_var.push(entry);
                j += 1;
            }
            proof {
                assert(var_vals(row_var@) =~= crate::arith::element_vals(row@));
                assert forall|m: Circuit<F>| #[trigger] cs.admits(&m) implies vals_in(
                    &m,
                    row_var@,
                ) == crate::arith::element_vals(row@) by {
                    assert(vals_in(&m, row_var@) =~= crate::arith::element_vals(row@));
                }
            }
            mds_var.push(row_var);
            i += 1;
        }
        proof {
            assert(var_vals(round_keys_var@) =~= parameters.keys().round_keys);
            assert(matrix_var_vals(mds_var@) =~= parameters.keys().mds);
            assert forall|m: Circuit<F>| #[trigger] cs.admits(&m) implies start_cs.admits(&m)
                && vals_in(&m, round_keys_var@) == parameters.keys().round_keys && matrix_vals_in(
                &m,
                mds_var@,
            ) == parameters.keys().mds by {
                assert(keys_cs.admits(&m));
                assert(vals_in(&m, round_keys_var@) =~= parameters.keys().round_keys);
                assert(matrix_vals_in(&m, mds_var@) =~= parameters.keys().mds);
            }
            assert forall|rounds: Rounds| #[trigger] parameters.fits(&rounds) implies matrix_covers(
                mds_var@,
                rounds.width as nat,
            ) by {
                assert forall|m: int| 0 <= m < rounds.width implies (#[trigger] mds_var@[m])@.len()
                    >= rounds.width by {
                    assert(var_vals(mds_var@[m]@).len() == crate::arith::element_vals(
                        parameters.mds_matrix@[m]@,
                    ).len());
                    assert(parameters.mds_matrix@[m]@.len() >= rounds.width);
                }
            }
        }
        PoseidonParametersVar { round_keys: round_keys_var, mds_matrix: mds_var }
    }
}

/// The Poseidon hash, laid out as a circuit.
#[derive(Debug, Clone, Copy, PartialEq, Eq)]
pub struct CRHGadget {
    pub rounds: Rounds,
}

impl CRHGadget {
    pub fn new(rounds: Rounds) -> (r: Self)
        ensures
            r.rounds == rounds,
    {
        CRHGadget { rounds }
    }

    /// One round on the state, reading the round keys from `offset` on.
    fn round<F: NativeField>(
        &self,
        cs: &mut Circuit<F>,
        parameters: &PoseidonParametersVar<F>,
        state: Vec<FieldVar<F>>,
        offset: usize,
        full: bool,
        Ghost(round): Ghost<nat>,
    ) -> (r: Vec<FieldVar<F>>)
        requires
            old(cs).wf(),
            parameters.held_by(old(cs)),
            old(cs).holds_all(state@),
            parameters.fits(&self.rounds),
            state@.len() == self.rounds.width,
            all_vars_wf(state@),
            round < self.rounds.shape().total_rounds(),
            offset == round * self.rounds.width,
            full == self.rounds.shape().is_full(round),
            !full ==> self.rounds.width > 0,
        ensures
            final(cs).wf(),
            final(cs).derives(old(cs)),
            final(cs).holds_all(r@),
            r@.len() == self.rounds.width,
            all_vars_wf(r@),
            var_vals(r@) == round_of(
                F::modulus(),
                self.rounds.shape(),
                parameters.keys(),
                round,
                var_vals(state@),
            ),
            forall|m: Circuit<F>| #[trigger]
                final(cs).admits(&m) ==> old(cs).admits(&m) && vals_in(&m, r@) == round_of(
                    F::modulus(),
                    self.rounds.shape(),
                    parameters.keys_in(&m),
                    round,
                    vals_in(&m, state@),
                ),
    {
        let ghost p = F::modulus();
        let ghost shape = self.rounds.shape();
        let ghost before = var_vals(state@);
        let ghost with_keys = keyed(p, parameters.keys().round_keys, offset as nat, before);
        let ghost with_sbox = substituted(p, shape.degree, full, with_keys);
        let ghost start_cs = *cs;
        let ghost entry = state@;
        let width: usize = self.rounds.width;
        let available: usize = parameters.round_keys.len();
        proof {
            lemma_round_offset(shape, round);
            F::field_bounds();
        }
        let mut state = state;
        let mut i: usize = 0;
        while i < width
            invariant
                i <= width,
                width == self.rounds.width,
                state@.len() == width,
                offset + width <= available == parameters.round_keys@.len(),
                cs.wf(),
                cs.derives(&start_cs),
                parameters.held_by(&start_cs),
                cs.holds_all(state@),
                p == F::modulus(),
                shape == self.rounds.shape(),
                before.len() == width,
                with_keys == keyed(p, parameters.keys().round_keys, offset as nat, before),
                with_sbox == substituted(p, shape.degree, full, with_keys),
                all_vars_wf(state@),
                forall|m: int| 0 <= m < i ==> (#[trigger] state@[m]).val() == with_sbox[m],
                forall|m: int| i <= m < width ==> (#[trigger] state@[m]).val() == before[m],
                entry.len() == width,
                F::modulus() > 1,
                forall|m: Circuit<F>| #[trigger]
                    cs.admits(&m) ==> start_cs.admits(&m) && (forall|n: int|
                        0 <= n < i ==> (#[trigger] state@[n]).val_in(&m) == substituted(
                            p,
                            shape.degree,
                            full,
                            keyed(
                                p,
                                vals_in(&m, parameters.round_keys@),
                                offset as nat,
                                vals_in(&m, entry),
                            ),
                        )[n]) && (forall|n: int|
                        i <= n < width ==> (#[trigger] state@[n]).val_in(&m) == entry[n].val_in(
                            &m,
                        )),
            decreases width - i,
        {
            proof {
                assert(start_cs.holds(&parameters.round_keys@[offset + i]));
                assert(cs.holds(&state@[i as int]));
            }
            let ghost step_cs = *cs;
            let ghost step_state = state@;
            let sum = cs.add(&state[i], &parameters.round_keys[offset + i]);
            let next = if full || i == 0 {
                self.rounds.sbox.synthesize_sbox(cs, &sum)
            } else {
                sum
            };
            proof {
                assert forall|m: Circuit<F>| #[trigger] cs.admits(&m) implies step_cs.admits(&m)
                    && next.val_in(&m) == substituted(
                    p,
                    shape.degree,
                    full,
                    keyed(
                        p,
                        vals_in(&m, parameters.round_keys@),
                        offset as nat,
                        vals_in(&m, entry),
                    ),
                )[i as int] by {
                    let summed = add_val(
                        p,
                        step_state[i as int].val_in(&m),
                        parameters.round_keys@[offset + i].val_in(&m),
                    );
                    assert(canonical(p, summed)) by {
                        lemma_add_val_canonical(
                            p,
                            step_state[i as int].val_in(&m),
                            parameters.round_keys@[offset + i].val_in(&m),
                        );
                    }
                }
            }
            state.set(i, next);
            i += 1;
        }
        proof {
            assert(var_vals(state@) =~= with_sbox);
            assert forall|m: Circuit<F>| #[trigger] cs.admits(&m) implies vals_in(&m, state@)
                == substituted(
                p,
                shape.degree,
                full,
                keyed(p, vals_in(&m, parameters.round_keys@), offset as nat, vals_in(&m, entry)),
            ) by {
                assert(vals_in(&m, state@) =~= substituted(
                    p,
                    shape.degree,
                    full,
                    keyed(
                        p,
                        vals_in(&m, parameters.round_keys@),
                        offset as nat,
                        vals_in(&m, entry),
                    ),
                ));
            }
            assert(matrix_held(cs, parameters.mds_matrix@)) by {
                assert forall|m: int| 0 <= m < parameters.mds_matrix@.len() implies cs.holds_all(
                    (#[trigger] parameters.mds_matrix@[m])@,
                ) by {
                    assert(start_cs.holds_all(parameters.mds_matrix@[m]@));
                }
            }
        }
        Self::apply_linear_layer(cs, &state, &parameters.mds_matrix)
    }

    /// The permutation of the state.
    pub fn permute<F: NativeField>(
        &self,
        cs: &mut Circuit<F>,
        parameters: &PoseidonParametersVar<F>,
        state: Vec<FieldVar<F>>,
    ) -> (r: Vec<FieldVar<F>>)
        requires
            old(cs).wf(),
            parameters.held_by(old(cs)),
            old(cs).holds_all(state@),
            parameters.fits(&self.rounds),
            state@.len() == self.rounds.width,
            all_vars_wf(state@),
        ensures
            final(cs).wf(),
            final(cs).derives(old(cs)),
            final(cs).holds_all(r@),
            r@.len() == self.rounds.width,
            all_vars_wf(r@),
            var_vals(r@) == permute_spec(
                F::modulus(),
                self.rounds.shape(),
                parameters.keys(),
                var_vals(state@),
            ),
            forall|m: Circuit<F>| #[trigger]
                final(cs).admits(&m) ==> old(cs).admits(&m) && vals_in(&m, r@) == permute_spec(
                    F::modulus(),
                    self.rounds.shape(),
                    parameters.keys_in(&m),
                    vals_in(&m, state@),
                ),
    {
        let ghost p = F::modulus();
        let ghost shape = self.rounds.shape();
        let ghost keys = parameters.keys();
        let ghost start = var_vals(state@);
        let ghost start_cs = *cs;
        let ghost entry = state@;
        let width: usize = self.rounds.width;
        let half: usize = self.rounds.full_rounds / 2;
        let available: usize = parameters.round_keys.len();
        let mut state = state;
        let mut round_keys_offset: usize = 0;
        let ghost mut done: nat = 0;
        let mut r: usize = 0;
        while r < half
            invariant
                r <= half == shape.half(),
                done == r,
                cs.wf(),
                cs.derives(&start_cs),
                parameters.held_by(&start_cs),
                cs.holds_all(state@),
                parameters.fits(&self.rounds),
                width == self.rounds.width,
                available == parameters.round_keys@.len(),
                p == F::modulus(),
                shape == self.rounds.shape(),
                keys == parameters.keys(),
                state@.len() == width,
                all_vars_wf(state@),
                round_keys_offset == done * width,
                var_vals(state@) == permuted(p, shape, keys, done, start),
                forall|m: Circuit<F>| #[trigger]
                    cs.admits(&m) ==> start_cs.admits(&m) && vals_in(&m, state@) == permuted(
                        p,
                        shape,
                        parameters.keys_in(&m),
                        done,
                        vals_in(&m, entry),
                    ),
            decreases half - r,
        {
            proof {
                lemma_round_offset(shape, done);
                lemma_still_held(&start_cs, cs, parameters);
            }
            state = self.round(cs, parameters, state, round_keys_offset, true, Ghost(done));
            round_keys_offset = round_keys_offset + width;
            r += 1;
            proof {
                done = done + 1;
            }
        }
        let mut r: usize = 0;
        while r < self.rounds.partial_rounds
            invariant
                r <= self.rounds.partial_rounds,
                half == shape.half(),
                done == half + r,
                cs.wf(),
                cs.derives(&start_cs),
                parameters.held_by(&start_cs),
                cs.holds_all(state@),
                parameters.fits(&self.rounds),
                width == self.rounds.width,
                available == parameters.round_keys@.len(),
                p == F::modulus(),
                shape == self.rounds.shape(),
                keys == parameters.keys(),
                state@.len() == width,
                all_vars_wf(state@),
                round_keys_offset == done * width,
                var_vals(state@) == permuted(p, shape, keys, done, start),
                forall|m: Circuit<F>| #[trigger]
                    cs.admits(&m) ==> start_cs.admits(&m) && vals_in(&m, state@) == permuted(
                        p,
                        shape,
                        parameters.keys_in(&m),
                        done,
                        vals_in(&m, entry),
                    ),
            decreases self.rounds.partial_rounds - r,
        {
            proof {
                lemma_round_offset(shape, done);
                lemma_still_held(&start_cs, cs, parameters);
            }
            state = self.round(cs, parameters, state, round_keys_offset, false, Ghost(done));
            round_keys_offset = round_keys_offset + width;
            r += 1;
            proof {
                done = done + 1;
            }
        }
        let mut r: usize = 0;
        while r < half
            invariant
                r <= half == shape.half(),
                done == half + self.rounds.partial_rounds + r,
                cs.wf(),
                cs.derives(&start_cs),
                parameters.held_by(&start_cs),
                cs.holds_all(state@),
                parameters.fits(&self.rounds),
                width == self.rounds.width,
                available == parameters.round_keys@.len(),
                p == F::modulus(),
                shape == self.rounds.shape(),
                keys == parameters.keys(),
                state@.len() == width,
                all_vars_wf(state@),
                round_keys_offset == done * width,
                var_vals(state@) == permuted(p, shape, keys, done, start),
                forall|m: Circuit<F>| #[trigger]
                    cs.admits(&m) ==> start_cs.admits(&m) && vals_in(&m, state@) == permuted(
                        p,
                        shape,
                        parameters.keys_in(&m),
                        done,
                        vals_in(&m, entry),
                    ),
            decreases half - r,
        {
            proof {
                lemma_round_offset(shape, done);
                lemma_still_held(&start_cs, cs, parameters);
            }
            state = self.round(cs, parameters, state, round_keys_offset, true, Ghost(done));
            round_keys_offset = round_keys_offset + width;
            r += 1;
            proof {
                done = done + 1;
            }
        }
        state
    }

    /// The mixing matrix times the state.
    pub fn apply_linear_layer<F: NativeField>(
        cs: &mut Circuit<F>,
        state: &Vec<FieldVar<F>>,
        mds_matrix: &Vec<Vec<FieldVar<F>>>,
    ) -> (r: Vec<FieldVar<F>>)
        requires
            old(cs).wf(),
            old(cs).holds_all(state@),
            matrix_held(old(cs), mds_matrix@),
            matrix_covers(mds_matrix@, state@.len()),
        ensures
            final(cs).wf(),
            final(cs).derives(old(cs)),
            final(cs).holds_all(r@),
            r@.len() == state@.len(),
            all_vars_wf(r@),
            var_vals(r@) == mixed(F::modulus(), matrix_var_vals(mds_matrix@), var_vals(state@)),
            forall|m: Circuit<F>| #[trigger]
                final(cs).admits(&m) ==> old(cs).admits(&m) && vals_in(&m, r@) == mixed(
                    F::modulus(),
                    matrix_vals_in(&m, mds_matrix@),
                    vals_in(&m, state@),
                ),
    {
        let ghost p = F::modulus();
        let ghost rows = matrix_var_vals(mds_matrix@);
        let ghost given = var_vals(state@);
        let ghost start_cs = *cs;
        let zero = FieldElement::<F>::zero();
        let mut new_state: Vec<FieldVar<F>> = Vec::new();
        let mut i: usize = 0;
        while i < state.len()
            invariant
                i <= state@.len(),
                cs.wf(),
                cs.derives(&start_cs),
                start_cs.holds_all(state@),
                matrix_held(&start_cs, mds_matrix@),
                matrix_covers(mds_matrix@, state@.len()),
                zero.wf(),
                zero@ == 0,
                p == F::modulus(),
                rows == matrix_var_vals(mds_matrix@),
                given == var_vals(state@),
                cs.holds_all(new_state@),
                new_state@.len() == i,
                all_vars_wf(new_state@),
                forall|m: int|
                    0 <= m < i ==> (#[trigger] new_state@[m]).val() == dot(
                        p,
                        rows[m],
                        given,
                        given.len(),
                    ),
                forall|m: Circuit<F>| #[trigger]
                    cs.admits(&m) ==> start_cs.admits(&m) && forall|n: int|
                        0 <= n < i ==> (#[trigger] new_state@[n]).val_in(&m) == dot(
                            p,
                            vals_in(&m, mds_matrix@[n]@),
                            vals_in(&m, state@),
                            state@.len(),
                        ),
            decreases state@.len() - i,
        {
            let ghost row_cs = *cs;
            let mut sc = cs.constant(&zero);
            let mut j: usize = 0;
            while j < state.len()
                invariant
                    i < state@.len(),
                    j <= state@.len(),
                    cs.wf(),
                    cs.derives(&start_cs),
                    start_cs.holds_all(state@),
                    matrix_held(&start_cs, mds_matrix@),
                    matrix_covers(mds_matrix@, state@.len()),
                    p == F::modulus(),
                    rows == matrix_var_vals(mds_matrix@),
                    given == var_vals(state@),
                    cs.holds_all(new_state@),
                    cs.holds(&sc),
                    sc.wf(),
                    sc.val() == dot(p, rows[i as int], given, j as nat),
                    forall|m: Circuit<F>| #[trigger]
                        cs.admits(&m) ==> row_cs.admits(&m) && sc.val_in(&m) == dot(
                            p,
                            vals_in(&m, mds_matrix@[i as int]@),
                            vals_in(&m, state@),
                            j as nat,
                        ),
                decreases state@.len() - j,
            {
                proof {
                    assert(start_cs.holds_all(mds_matrix@[i as int]@));
                    assert(start_cs.holds(&mds_matrix@[i as int]@[j as int]));
                    assert(start_cs.holds(&state@[j as int]));
                }
                let mij = &mds_matrix[i][j];
                let term = cs.mul(mij, &state[j]);
                sc = cs.add(&sc, &term);
                j += 1;
            }
            new_state.push(sc);
            i += 1;
        }
        proof {
            assert(var_vals(new_state@) =~= mixed(p, rows, given));
            assert forall|m: Circuit<F>| #[trigger] cs.admits(&m) implies vals_in(&m, new_state@)
                == mixed(p, matrix_vals_in(&m, mds_matrix@), vals_in(&m, state@)) by {
                assert(vals_in(&m, new_state@) =~= mixed(
                    p,
                    matrix_vals_in(&m, mds_matrix@),
                    vals_in(&m, state@),
                ));
            }
        }
        new_state
    }

    /// The hash of the input bytes, as a variable of the circuit.
    ///
    /// The input is refused where it packs into more elements than the
    /// instance is wide; the circuit is then left as it was. An instance of
    /// width zero has no variable to return.
    pub fn evaluate<F: NativeField>(
        &self,
        cs: &mut Circuit<F>,
        parameters: &PoseidonParametersVar<F>,
        input: &[ByteVar],
    ) -> (r: Result<FieldVar<F>, Error>)
        requires
            old(cs).wf(),
            parameters.held_by(old(cs)),
            old(cs).holds_bytes(input@),
            parameters.fits(&self.rounds),
        ensures
            final(cs).wf(),
            final(cs).derives(old(cs)),
            r is Ok <==> chunk_count(input@.len(), F::chunk_len()) <= self.rounds.width
                && self.rounds.width > 0,
            r matches Ok(h) ==> final(cs).holds(&h) && h.wf() && h.val() == poseidon_hash(
                F::modulus(),
                F::chunk_len(),
                self.rounds.shape(),
                parameters.keys(),
                byte_vals(input@),
            ),
            r matches Ok(h) ==> forall|m: Circuit<F>| #[trigger]
                final(cs).admits(&m) ==> old(cs).admits(&m) && h.val_in(&m) == poseidon_hash(
                    F::modulus(),
                    F::chunk_len(),
                    self.rounds.shape(),
                    parameters.keys_in(&m),
                    bytes_in(&m, input@),
                ),
            r matches Err(e) ==> e == (if chunk_count(input@.len(), F::chunk_len())
                > self.rounds.width {
                Error::WidthOverflow
            } else {
                Error::MissingWitness
            }),
            r matches Err(Error::WidthOverflow) ==> *final(cs) == *old(cs),
    {
        proof {
            F::field_bounds();
        }
        if count_chunks(input.len(), F::chunk_size()) > self.rounds.width {
            return Err(Error::WidthOverflow);
        }
        let ghost start_cs = *cs;
        let f_var_inputs = to_field_var_elements(cs, input);
        let buffer = pad_state_vars(cs, f_var_inputs, self.rounds.width);
        proof {
            lemma_still_held(&start_cs, cs, parameters);
        }
        let result = self.permute(cs, parameters, buffer);
        if result.len() == 0 {
            return Err(Error::MissingWitness);
        }
        proof {
            assert(var_vals(result@)[0] == result@[0].val());
            assert(cs.holds(&result@[0]));
            assert forall|m: Circuit<F>| #[trigger] cs.admits(&m) implies result@[0].val_in(&m)
                == poseidon_hash(
                F::modulus(),
                F::chunk_len(),
                self.rounds.shape(),
                parameters.keys_in(&m),
                bytes_in(&m, input@),
            ) by {
                assert(vals_in(&m, result@)[0] == result@[0].val_in(&m));
            }
        }
        Ok(result[0].duplicate())
    }

    /// The hash of the two inputs, one after the other.
    ///
    /// The inputs are refused, before any gate is asked for, where they
    /// differ in length.
    pub fn combine<F: NativeField>(
        &self,
        cs: &mut Circuit<F>,
        parameters: &PoseidonParametersVar<F>,
        left_input: &[ByteVar],
        right_input: &[ByteVar],
    ) -> (r: Result<FieldVar<F>, Error>)
        requires
            old(cs).wf(),
            parameters.held_by(old(cs)),
            old(cs).holds_bytes(left_input@),
            old(cs).holds_bytes(right_input@),
            parameters.fits(&self.rounds),
        ensures
            final(cs).wf(),
            final(cs).derives(old(cs)),
            r is Ok <==> left_input@.len() == right_input@.len() && chunk_count(
                left_input@.len() + right_input@.len(),
                F::chunk_len(),
            ) <= self.rounds.width && self.rounds.width > 0,
            r matches Ok(h) ==> final(cs).holds(&h) && h.wf() && h.val() == poseidon_hash(
                F::modulus(),
                F::chunk_len(),
                self.rounds.shape(),
                parameters.keys(),
                byte_vals(left_input@) + byte_vals(right_input@),
            ),
            r matches Ok(h) ==> forall|m: Circuit<F>| #[trigger]
                final(cs).admits(&m) ==> old(cs).admits(&m) && h.val_in(&m) == poseidon_hash(
                    F::modulus(),
                    F::chunk_len(),
                    self.rounds.shape(),
                    parameters.keys_in(&m),
                    bytes_in(&m, left_input@) + bytes_in(&m, right_input@),
                ),
            r matches Err(e) ==> e == (if left_input@.len() != right_input@.len() {
                Error::LengthMismatch
            } else if chunk_count(left_input@.len() + right_input@.len(), F::chunk_len())
                > self.rounds.width {
                Error::WidthOverflow
            } else {
                Error::MissingWitness
            }),
            r matches Err(Error::LengthMismatch) ==> *final(cs) == *old(cs),
            r matches Err(Error::WidthOverflow) ==> *final(cs) == *old(cs),
    {
        if left_input.len() != right_input.len() {
            return Err(Error::LengthMismatch);
        }
        let mut chained: Vec<ByteVar> = Vec::new();
        chained.extend_from_slice(left_input);
        chained.extend_from_slice(right_input);
        proof {
            assert(chained@ =~= left_input@ + right_input@);
            assert(byte_vals(chained@) =~= byte_vals(left_input@) + byte_vals(right_input@));
            assert forall|m: Circuit<F>| #[trigger]
                bytes_in(&m, chained@) == bytes_in(&m, left_input@) + bytes_in(
                    &m,
                    right_input@,
                ) by {
                assert(bytes_in(&m, chained@) =~= bytes_in(&m, left_input@) + bytes_in(
                    &m,
                    right_input@,
                ));
            }
        }
        self.evaluate(cs, parameters, chained.as_slice())
    }
}

/// The circuit computes what the native evaluation computes: where the
/// circuit's parameters stand for the native ones and its input bytes are
/// assigned the native input, both evaluations succeed or both fail with the
/// same error, and the value of the circuit's result is the native hash.
pub proof fn lemma_gadget_agrees<F: NativeField>(
    crh: &CRH,
    gadget: &CRHGadget,
    parameters: &PoseidonParameters<F>,
    parameters_var: &PoseidonParametersVar<F>,
    input: Seq<u8>,
    input_var: Seq<ByteVar>,
    native: Result<FieldElement<F>, Error>,
    in_circuit: Result<FieldVar<F>, Error>,
)
    requires
        gadget.rounds == crh.rounds,
        parameters_var.keys() == parameters.keys(),
        byte_vals(input_var) == given_bytes(input),
        native is Ok <==> chunk_count(input.len(), F::chunk_len()) <= crh.rounds.width
            && crh.rounds.width > 0,
        native matches Ok(h) ==> Some(h@) == poseidon_hash(
            F::modulus(),
            F::chunk_len(),
            crh.rounds.shape(),
            parameters.keys(),
            given_bytes(input),
        ),
        native matches Err(e) ==> e == (if chunk_count(input.len(), F::chunk_len())
            > crh.rounds.width {
            Error::WidthOverflow
        } else {
            Error::MissingWitness
        }),
        in_circuit is Ok <==> chunk_count(input_var.len(), F::chunk_len())
            <= gadget.rounds.width && gadget.rounds.width > 0,
        in_circuit matches Ok(h) ==> h.val() == poseidon_hash(
            F::modulus(),
            F::chunk_len(),
            gadget.rounds.shape(),
            parameters_var.keys(),
            byte_vals(input_var),
        ),
        in_circuit matches Err(e) ==> e == (if chunk_count(input_var.len(), F::chunk_len())
            > gadget.rounds.width {
            Error::WidthOverflow
        } else {
            Error::MissingWitness
        }),
    ensures
        native is Ok <==> in_circuit is Ok,
        native matches Ok(h) ==> in_circuit matches Ok(v) && v.val() == Some(h@),
        native matches Err(e) ==> in_circuit matches Err(f) && e == f,
{
    assert(byte_vals(input_var).len() == given_bytes(input).len());
}

/// The circuit admits no other result: in every assignment that satisfies
/// the circuit after the evaluation, and in which the parameter variables
/// take the native parameters and the input bytes take the native input, the
/// result takes the native hash.
pub proof fn lemma_gadget_sound<F: NativeField>(
    gadget: &CRHGadget,
    cs: &Circuit<F>,
    model: &Circuit<F>,
    parameters: &PoseidonParameters<F>,
    parameters_var: &PoseidonParametersVar<F>,
    input: Seq<u8>,
    input_var: Seq<ByteVar>,
    native: FieldElement<F>,
    in_circuit: FieldVar<F>,
)
    requires
        cs.admits(model),
        parameters_var.keys_in(model) == parameters.keys(),
        bytes_in(model, input_var) == given_bytes(input),
        Some(native@) == poseidon_hash(
            F::modulus(),
            F::chunk_len(),
            gadget.rounds.shape(),
            parameters.keys(),
            given_bytes(input),
        ),
        forall|m: Circuit<F>| #[trigger]
            cs.admits(&m) ==> in_circuit.val_in(&m) == poseidon_hash(
                F::modulus(),
                F::chunk_len(),
                gadget.rounds.shape(),
                parameters_var.keys_in(&m),
                bytes_in(&m, input_var),
            ),
    ensures
        in_circuit.val_in(model) == Some(native@),
{
}

/// Parameters that a circuit held are held by every circuit that extends it.
pub proof fn lemma_still_held<F: NativeField>(
    before: &Circuit<F>,
    after: &Circuit<F>,
    parameters: &PoseidonParametersVar<F>,
)
    requires
        parameters.held_by(before),
        after.extends(before),
    ensures
        parameters.held_by(after),
{
    assert forall|i: int| 0 <= i < parameters.mds_matrix@.len() implies after.holds_all(
        (#[trigger] parameters.mds_matrix@[i])@,
    ) by {
        assert(before.holds_all(parameters.mds_matrix@[i]@));
    }
}

} // verus!
