//! The Poseidon hash: a substitution-permutation network over a prime field.
//!
//! A round adds round keys to the state, applies the S-box, and mixes the state
//! with a fixed matrix. The first and the last rounds are full: the S-box is
//! applied to every element. The rounds in between are partial: it is applied
//! to the first element only. The round keys are read in one run, round after
//! round, `width` of them in each round.

pub mod constraints;
pub mod sbox;

use crate::arith::add_val;
use crate::arith::all_canonical;
use crate::arith::element_vals;
use crate::arith::given_bytes;
use crate::arith::mul_val;
use crate::crh::FieldHasher;
use crate::error::Error;
use crate::field::FieldElement;
use crate::field::NativeField;
use crate::field::PrimeModulus;
use crate::packing::chunk_count;
use crate::packing::count_chunks;
use crate::packing::pad_state;
use crate::packing::packed;
use crate::packing::padded_state;
use crate::packing::to_field_elements;
use crate::poseidon::sbox::pow_val;
use crate::poseidon::sbox::PoseidonSbox;
use vstd::prelude::*;

verus! {

/// The shape of a Poseidon instance, as numbers.
pub struct Shape {
    pub width: nat,
    pub full_rounds: nat,
    pub partial_rounds: nat,
    pub degree: nat,
}

impl Shape {
    /// The number of full rounds at each end.
    pub open spec fn half(&self) -> nat {
        self.full_rounds / 2
    }

    /// The number of rounds in all.
    pub open spec fn total_rounds(&self) -> nat {
        2 * self.half() + self.partial_rounds
    }

    /// Round `round` is a full one.
    pub open spec fn is_full(&self, round: nat) -> bool {
        round < self.half() || round >= self.half() + self.partial_rounds
    }
}

/// What a permutation is keyed with, as numbers: the round keys and the
/// rows of the mixing matrix.
pub struct PermutationKeys {
    pub round_keys: Seq<Option<nat>>,
    pub mds: Seq<Seq<Option<nat>>>,
}

/// The state with round keys added, the first of them at `offset`.
pub open spec fn keyed(p: nat, round_keys: Seq<Option<nat>>, offset: nat, state: Seq<Option<nat>>) -> Seq<
    Option<nat>,
> {
    Seq::new(state.len(), |i: int| add_val(p, state[i], round_keys[offset + i]))
}

/// The state with the S-box applied: to every element in a full round, to the
/// first one in a partial round.
pub open spec fn substituted(p: nat, degree: nat, full: bool, state: Seq<Option<nat>>) -> Seq<
    Option<nat>,
> {
    Seq::new(
        state.len(),
        |i: int|
            if full || i == 0 {
                pow_val(p, state[i], degree)
            } else {
                state[i]
            },
    )
}

/// The sum of the first `n` products of a matrix row with the state.
pub open spec fn dot(p: nat, row: Seq<Option<nat>>, state: Seq<Option<nat>>, n: nat) -> Option<nat>
    decreases n,
{
    if n == 0 {
        Some(0nat)
    } else {
        add_val(p, dot(p, row, state, (n - 1) as nat), mul_val(p, row[n - 1], state[n - 1]))
    }
}

/// The mixing matrix times the state.
pub open spec fn mixed(p: nat, mds: Seq<Seq<Option<nat>>>, state: Seq<Option<nat>>) -> Seq<
    Option<nat>,
> {
    Seq::new(state.len(), |i: int| dot(p, mds[i], state, state.len()))
}

/// One round: keys, S-box, mixing. Round `round` reads the round keys from
/// `round * width` on.
pub open spec fn round_of(
    p: nat,
    shape: Shape,
    keys: PermutationKeys,
    round: nat,
    state: Seq<Option<nat>>,
) -> Seq<Option<nat>> {
    mixed(
        p,
        keys.mds,
        substituted(
            p,
            shape.degree,
            shape.is_full(round),
            keyed(p, keys.round_keys, round * shape.width, state),
        ),
    )
}

/// The state after the first `n` rounds.
pub open spec fn permuted(
    p: nat,
    shape: Shape,
    keys: PermutationKeys,
    n: nat,
    state: Seq<Option<nat>>,
) -> Seq<Option<nat>>
    decreases n,
{
    if n == 0 {
        state
    } else {
        round_of(p, shape, keys, (n - 1) as nat, permuted(p, shape, keys, (n - 1) as nat, state))
    }
}

/// The permutation: the state after all the rounds.
pub open spec fn permute_spec(p: nat, shape: Shape, keys: PermutationKeys, state: Seq<Option<nat>>) -> Seq<
    Option<nat>,
> {
    permuted(p, shape, keys, shape.total_rounds(), state)
}

/// The Poseidon hash of a byte string: the bytes are packed into a state of
/// `width` elements, and the hash is the first element of the permuted state.
pub open spec fn poseidon_hash(
    p: nat,
    chunk_len: nat,
    shape: Shape,
    keys: PermutationKeys,
    bytes: Seq<Option<u8>>,
) -> Option<nat>
    recommends
        shape.width > 0,
{
    permute_spec(p, shape, keys, padded_state(packed(p, chunk_len, bytes), shape.width))[0]
}

/// The shape of a Poseidon instance.
#[derive(Debug, Clone, Copy, PartialEq, Eq)]
pub struct Rounds {
    pub width: usize,
    pub full_rounds: usize,
    pub partial_rounds: usize,
    pub sbox: PoseidonSbox,
}

impl Rounds {
    /// The shape as numbers.
    pub open spec fn shape(&self) -> Shape {
        Shape {
            width: self.width as nat,
            full_rounds: self.full_rounds as nat,
            partial_rounds: self.partial_rounds as nat,
            degree: self.sbox.degree(),
        }
    }

    /// The number of round keys that the permutation reads, where it fits a `usize`.
    pub fn keys_needed(&self) -> (r: Option<usize>)
        ensures
            r matches Some(n) ==> n == self.shape().total_rounds() * self.width,
            r is None ==> self.shape().total_rounds() * self.width > usize::MAX,
    {
        let half: usize = self.full_rounds / 2;
        let total: usize = match (2 * half).checked_add(self.partial_rounds) {
            Some(t) => t,
            None => {
                if self.width == 0 {
                    proof {
                        assert(self.shape().total_rounds() * 0 == 0) by (nonlinear_arith);
                    }
                    return Some(0);
                }
                proof {
                    assert(self.shape().total_rounds() * self.width > usize::MAX)
                        by (nonlinear_arith)
                        requires
                            self.shape().total_rounds() > usize::MAX,
                            self.width >= 1,
                    ;
                }
                return None;
            },
        };
        total.checked_mul(self.width)
    }
}

/// The numbers of a Poseidon instance.
#[derive(Debug, Clone, PartialEq, Eq)]
pub struct PoseidonParameters<F: PrimeModulus> {
    /// The round keys.
    pub round_keys: Vec<FieldElement<F>>,
    /// The mixing matrix, row by row.
    pub mds_matrix: Vec<Vec<FieldElement<F>>>,
}

/// The rows of a matrix of field elements, as numbers.
pub open spec fn matrix_vals<F: PrimeModulus>(rows: Seq<Vec<FieldElement<F>>>) -> Seq<
    Seq<Option<nat>>,
> {
    Seq::new(rows.len(), |i: int| element_vals(rows[i]@))
}

/// The matrix has at least `width` rows of at least `width` elements.
pub open spec fn matrix_covers<T>(rows: Seq<Vec<T>>, width: nat) -> bool {
    &&& rows.len() >= width
    &&& forall|i: int| 0 <= i < width ==> (#[trigger] rows[i])@.len() >= width
}

impl<F: NativeField> PoseidonParameters<F> {
    pub fn new(round_keys: Vec<FieldElement<F>>, mds_matrix: Vec<Vec<FieldElement<F>>>) -> (r:
        Self)
        ensures
            r.round_keys == round_keys,
            r.mds_matrix == mds_matrix,
    {
        PoseidonParameters { round_keys, mds_matrix }
    }

    /// The keys as numbers.
    pub open spec fn keys(&self) -> PermutationKeys {
        PermutationKeys {
            round_keys: element_vals(self.round_keys@),
            mds: matrix_vals(self.mds_matrix@),
        }
    }

    /// The parameters fit the shape: there is a round key for every element
    /// of every round, and the matrix covers the state. A shape with partial
    /// rounds has a first element for them to work on.
    pub open spec fn fits(&self, rounds: &Rounds) -> bool {
        &&& self.round_keys@.len() >= rounds.shape().total_rounds() * rounds.width
        &&& matrix_covers(self.mds_matrix@, rounds.width as nat)
        &&& rounds.partial_rounds > 0 ==> rounds.width > 0
    }

    /// Whether the parameters fit the shape.
    pub fn check_fits(&self, rounds: &Rounds) -> (ok: bool)
        ensures
            ok == self.fits(rounds),
    {
        if rounds.partial_rounds > 0 && rounds.width == 0 {
            return false;
        }
        let available: usize = self.round_keys.len();
        match rounds.keys_needed() {
            Some(n) => {
                if available < n {
                    return false;
                }
            },
            None => {
                return false;
            },
        }
        if self.mds_matrix.len() < rounds.width {
            return false;
        }
        let mut i: usize = 0;
        while i < rounds.width
            invariant
                i <= rounds.width <= self.mds_matrix@.len(),
                forall|m: int| 0 <= m < i ==> (#[trigger] self.mds_matrix@[m])@.len() >= rounds.width,
            decreases rounds.width - i,
        {
            if self.mds_matrix[i].len() < rounds.width {
                return false;
            }
            i += 1;
        }
        true
    }
}

/// The Poseidon hash, evaluated on field elements.
#[derive(Debug, Clone, Copy, PartialEq, Eq)]
pub struct CRH {
    pub rounds: Rounds,
}

impl CRH {
    pub fn new(rounds: Rounds) -> (r: Self)
        ensures
            r.rounds == rounds,
    {
        CRH { rounds }
    }

    /// One round on the state, reading the round keys from `offset` on.
    fn round<F: NativeField>(
        &self,
        parameters: &PoseidonParameters<F>,
        state: Vec<FieldElement<F>>,
        offset: usize,
        full: bool,
        Ghost(round): Ghost<nat>,
    ) -> (r: Vec<FieldElement<F>>)
        requires
            parameters.fits(&self.rounds),
            state@.len() == self.rounds.width,
            all_canonical(state@),
            round < self.rounds.shape().total_rounds(),
            offset == round * self.rounds.width,
            full == self.rounds.shape().is_full(round),
            !full ==> self.rounds.width > 0,
        ensures
            r@.len() == self.rounds.width,
            all_canonical(r@),
            element_vals(r@) == round_of(
                F::modulus(),
                self.rounds.shape(),
                parameters.keys(),
                round,
                element_vals(state@),
            ),
    {
        let ghost p = F::modulus();
        let ghost shape = self.rounds.shape();
        let ghost before = element_vals(state@);
        let ghost with_keys = keyed(p, parameters.keys().round_keys, offset as nat, before);
        let ghost with_sbox = substituted(p, shape.degree, full, with_keys);
        let width: usize = self.rounds.width;
        let available: usize = parameters.round_keys.len();
        proof {
            lemma_round_offset(shape, round);
        }
        let mut state = state;
        let mut i: usize = 0;
        while i < width
            invariant
                i <= width,
                width == self.rounds.width,
                state@.len() == width,
                offset + width <= available == parameters.round_keys@.len(),
                p == F::modulus(),
                shape == self.rounds.shape(),
                before.len() == width,
                with_keys == keyed(p, parameters.keys().round_keys, offset as nat, before),
                with_sbox == substituted(p, shape.degree, full, with_keys),
                all_canonical(state@),
                forall|m: int| 0 <= m < i ==> Some((#[trigger] state@[m])@) == with_sbox[m],
                forall|m: int| i <= m < width ==> Some((#[trigger] state@[m])@) == before[m],
            decreases width - i,
        {
            let sum = state[i].add(&parameters.round_keys[offset + i]);
            let next = if full || i == 0 {
                self.rounds.sbox.apply_sbox(&sum)
            } else {
                sum
            };
            state.set(i, next);
            i += 1;
        }
        proof {
            assert(element_vals(state@) =~= with_sbox);
        }
        Self::apply_linear_layer(&state, &parameters.mds_matrix)
    }

    /// The permutation of the state.
    pub fn permute<F: NativeField>(
        &self,
        parameters: &PoseidonParameters<F>,
        state: Vec<FieldElement<F>>,
    ) -> (r: Vec<FieldElement<F>>)
        requires
            parameters.fits(&self.rounds),
            state@.len() == self.rounds.width,
            all_canonical(state@),
        ensures
            r@.len() == self.rounds.width,
            all_canonical(r@),
            element_vals(r@) == permute_spec(
                F::modulus(),
                self.rounds.shape(),
                parameters.keys(),
                element_vals(state@),
            ),
    {
        let ghost p = F::modulus();
        let ghost shape = self.rounds.shape();
        let ghost keys = parameters.keys();
        let ghost start = element_vals(state@);
        let width: usize = self.rounds.width;
        let half: usize = self.rounds.full_rounds / 2;
        let available: usize = parameters.round_keys.len();
        let mut state = state;
        let mut round_keys_offset: usize = 0;
        let ghost mut done: nat = 0;
        let mut r: usize = 0;
        while r < half
            invariant
                r <= half == shape.half(),
                done == r,
                parameters.fits(&self.rounds),
                width == self.rounds.width,
                available == parameters.round_keys@.len(),
                p == F::modulus(),
                shape == self.rounds.shape(),
                keys == parameters.keys(),
                state@.len() == width,
                all_canonical(state@),
                round_keys_offset == done * width,
                element_vals(state@) == permuted(p, shape, keys, done, start),
            decreases half - r,
        {
            proof {
                lemma_round_offset(shape, done);
            }
            state = self.round(parameters, state, round_keys_offset, true, Ghost(done));
            round_keys_offset = round_keys_offset + width;
            r += 1;
            proof {
                done = done + 1;
            }
        }
        let mut r: usize = 0;
        while r < self.rounds.partial_rounds
            invariant
                r <= self.rounds.partial_rounds,
                half == shape.half(),
                done == half + r,
                parameters.fits(&self.rounds),
                width == self.rounds.width,
                available == parameters.round_keys@.len(),
                p == F::modulus(),
                shape == self.rounds.shape(),
                keys == parameters.keys(),
                state@.len() == width,
                all_canonical(state@),
                round_keys_offset == done * width,
                element_vals(state@) == permuted(p, shape, keys, done, start),
            decreases self.rounds.partial_rounds - r,
        {
            proof {
                lemma_round_offset(shape, done);
            }
            state = self.round(parameters, state, round_keys_offset, false, Ghost(done));
            round_keys_offset = round_keys_offset + width;
            r += 1;
            proof {
                done = done + 1;
            }
        }
        let mut r: usize = 0;
        while r < half
            invariant
                r <= half == shape.half(),
                done == half + self.rounds.partial_rounds + r,
                parameters.fits(&self.rounds),
                width == self.rounds.width,
                available == parameters.round_keys@.len(),
                p == F::modulus(),
                shape == self.rounds.shape(),
                keys == parameters.keys(),
                state@.len() == width,
                all_canonical(state@),
                round_keys_offset == done * width,
                element_vals(state@) == permuted(p, shape, keys, done, start),
            decreases half - r,
        {
            proof {
                lemma_round_offset(shape, done);
            }
            state = self.round(parameters, state, round_keys_offset, true, Ghost(done));
            round_keys_offset = round_keys_offset + width;
            r += 1;
            proof {
                done = done + 1;
            }
        }
        state
    }

    /// The mixing matrix times the state.
    pub fn apply_linear_layer<F: NativeField>(
        state: &Vec<FieldElement<F>>,
        mds_matrix: &Vec<Vec<FieldElement<F>>>,
    ) -> (r: Vec<FieldElement<F>>)
        requires
            matrix_covers(mds_matrix@, state@.len()),
        ensures
            r@.len() == state@.len(),
            all_canonical(r@),
            element_vals(r@) == mixed(F::modulus(), matrix_vals(mds_matrix@), element_vals(state@)),
    {
        let ghost p = F::modulus();
        let ghost rows = matrix_vals(mds_matrix@);
        let ghost given = element_vals(state@);
        let mut new_state: Vec<FieldElement<F>> = Vec::new();
        let mut i: usize = 0;
        while i < state.len()
            invariant
                i <= state@.len(),
                matrix_covers(mds_matrix@, state@.len()),
                p == F::modulus(),
                rows == matrix_vals(mds_matrix@),
                given == element_vals(state@),
                new_state@.len() == i,
                all_canonical(new_state@),
                forall|m: int|
                    0 <= m < i ==> Some((#[trigger] new_state@[m])@) == dot(
                        p,
                        rows[m],
                        given,
                        given.len(),
                    ),
            decreases state@.len() - i,
        {
            let mut sc = FieldElement::<F>::zero();
            let mut j: usize = 0;
            while j < state.len()
                invariant
                    i < state@.len(),
                    j <= state@.len(),
                    matrix_covers(mds_matrix@, state@.len()),
                    p == F::modulus(),
                    rows == matrix_vals(mds_matrix@),
                    given == element_vals(state@),
                    sc.wf(),
                    Some(sc@) == dot(p, rows[i as int], given, j as nat),
                decreases state@.len() - j,
            {
                let mij = &mds_matrix[i][j];
                sc = sc.add(&mij.mul(&state[j]));
                j += 1;
            }
            new_state.push(sc);
            i += 1;
        }
        proof {
            assert(element_vals(new_state@) =~= mixed(p, rows, given));
        }
        new_state
    }

    /// The hash of the input bytes.
    ///
    /// The input is refused where it packs into more elements than the
    /// instance is wide. An instance of width zero has no element to return.
    pub fn evaluate<F: NativeField>(&self, parameters: &PoseidonParameters<F>, input: &[u8]) -> (r:
        Result<FieldElement<F>, Error>)
        requires
            parameters.fits(&self.rounds),
        ensures
            r is Ok <==> chunk_count(input@.len(), F::chunk_len()) <= self.rounds.width
                && self.rounds.width > 0,
            r matches Ok(h) ==> h.wf() && Some(h@) == poseidon_hash(
                F::modulus(),
                F::chunk_len(),
                self.rounds.shape(),
                parameters.keys(),
                given_bytes(input@),
            ),
            r matches Err(e) ==> e == (if chunk_count(input@.len(), F::chunk_len())
                > self.rounds.width {
                Error::WidthOverflow
            } else {
                Error::MissingWitness
            }),
    {
        proof {
            F::field_bounds();
        }
        if count_chunks(input.len(), F::chunk_size()) > self.rounds.width {
            return Err(Error::WidthOverflow);
        }
        let elements = to_field_elements::<F>(input);
        let buffer = pad_state(elements, self.rounds.width);
        let result = self.permute(parameters, buffer);
        if result.len() == 0 {
            return Err(Error::MissingWitness);
        }
        proof {
            assert(element_vals(result@)[0] == Some(result@[0]@));
        }
        Ok(result[0].clone())
    }

    /// The hash of the two inputs, one after the other.
    ///
    /// The inputs are refused, before any hashing, where they differ in length.
    pub fn combine<F: NativeField>(
        &self,
        parameters: &PoseidonParameters<F>,
        left_input: &[u8],
        right_input: &[u8],
    ) -> (r: Result<FieldElement<F>, Error>)
        requires
            parameters.fits(&self.rounds),
        ensures
            r is Ok <==> left_input@.len() == right_input@.len() && chunk_count(
                left_input@.len() + right_input@.len(),
                F::chunk_len(),
            ) <= self.rounds.width && self.rounds.width > 0,
            r matches Ok(h) ==> h.wf() && Some(h@) == poseidon_hash(
                F::modulus(),
                F::chunk_len(),
                self.rounds.shape(),
                parameters.keys(),
                given_bytes(left_input@) + given_bytes(right_input@),
            ),
            r matches Err(e) ==> e == (if left_input@.len() != right_input@.len() {
                Error::LengthMismatch
            } else if chunk_count(left_input@.len() + right_input@.len(), F::chunk_len())
                > self.rounds.width {
                Error::WidthOverflow
            } else {
                Error::MissingWitness
            }),
    {
        if left_input.len() != right_input.len() {
            return Err(Error::LengthMismatch);
        }
        let mut chained: Vec<u8> = Vec::new();
        chained.extend_from_slice(left_input);
        chained.extend_from_slice(right_input);
        proof {
            assert(chained@ =~= left_input@ + right_input@);
            assert(given_bytes(chained@) =~= given_bytes(left_input@) + given_bytes(right_input@));
        }
        self.evaluate(parameters, chained.as_slice())
    }
}

impl<F: NativeField> FieldHasher<F> for CRH {
    type Parameters = PoseidonParameters<F>;

    open spec fn accepts(&self, parameters: &PoseidonParameters<F>) -> bool {
        parameters.fits(&self.rounds)
    }

    open spec fn outcome(&self, parameters: &PoseidonParameters<F>, input: Seq<u8>) -> Result<
        nat,
        Error,
    > {
        if chunk_count(input.len(), F::chunk_len()) > self.rounds.width {
            Err(Error::WidthOverflow)
        } else if self.rounds.width == 0 {
            Err(Error::MissingWitness)
        } else {
            Ok(
                poseidon_hash(
                    F::modulus(),
                    F::chunk_len(),
                    self.rounds.shape(),
                    parameters.keys(),
                    given_bytes(input),
                ).unwrap(),
            )
        }
    }

    fn evaluate(&self, parameters: &PoseidonParameters<F>, input: &[u8]) -> (r: Result<
        FieldElement<F>,
        Error,
    >) {
        CRH::evaluate(self, parameters, input)
    }
}

/// The round keys of a round that is run lie within those that the shape asks for.
pub proof fn lemma_round_offset(shape: Shape, round: nat)
    requires
        round < shape.total_rounds(),
    ensures
        round * shape.width + shape.width == (round + 1) * shape.width,
        (round + 1) * shape.width <= shape.total_rounds() * shape.width,
{
    assert((round + 1) * shape.width == round * shape.width + shape.width) by (nonlinear_arith);
    assert((round + 1) * shape.width <= shape.total_rounds() * shape.width) by (nonlinear_arith)
        requires
            round + 1 <= shape.total_rounds(),
    ;
}

} // verus!
