//! An arithmetic circuit under construction.
//!
//! A gadget asks for constants, sums, products and packed bytes; the circuit
//! records each request as a gate, in order, together with the value that the
//! gate's output takes. A variable is the output of one gate. While a circuit
//! is only being laid out its inputs have no value, and then neither has
//! anything computed from them.
//!
//! The record is all that a proof system needs to lay the same circuit out in
//! its own constraint system: the gates say which constraints to write, the
//! values are the witness.
//!
//! A gadget states its result twice: of the values at hand, and of every
//! model of the circuit, that is of every assignment of values that satisfies
//! the recorded gates. The second is what makes a circuit sound: whatever a
//! prover supplies, the result is the hash of what the inputs take.

use crate::arith::add_val;
use crate::arith::all_assigned;
use crate::arith::assigned_bytes;
use crate::arith::mul_val;
use crate::arith::pack_val;
use crate::error::Error;
use crate::field::FieldElement;
use crate::field::NativeField;
use crate::field::PrimeModulus;
use vstd::prelude::*;

verus! {

/// Where a byte variable comes from.
#[derive(Debug, Clone, Copy, PartialEq, Eq)]
pub enum ByteGate {
    /// The prover supplies the byte.
    Witness,
    /// The byte is fixed.
    Constant(u8),
}

/// Where a field variable comes from. Operands are named by their position
/// among the field gates, bytes by their position among the byte gates.
#[derive(Debug, Clone, PartialEq, Eq)]
pub enum Gate<F: PrimeModulus> {
    /// The prover supplies the element.
    Witness,
    /// The element is fixed.
    Constant(FieldElement<F>),
    /// The element that the bytes spell as a little-endian number.
    Pack(Vec<usize>),
    /// The sum of two earlier variables.
    Add(usize, usize),
    /// The product of two earlier variables.
    Mul(usize, usize),
}

/// A variable that stands for a byte.
#[derive(Debug, Clone, Copy, PartialEq, Eq)]
pub struct ByteVar {
    index: usize,
    value: Option<u8>,
}

/// A variable that stands for a field element.
#[derive(Debug, Clone, PartialEq, Eq)]
pub struct FieldVar<F: PrimeModulus> {
    index: usize,
    value: Option<FieldElement<F>>,
}

/// The gates asked for so far, and the value of each gate's output.
#[derive(Debug, Clone, PartialEq, Eq)]
pub struct Circuit<F: PrimeModulus> {
    byte_gates: Vec<ByteGate>,
    byte_values: Vec<Option<u8>>,
    gates: Vec<Gate<F>>,
    values: Vec<Option<FieldElement<F>>>,
}

/// The value of a gate of this kind is supplied, not computed.
pub open spec fn supplied<F: PrimeModulus>(gate: Gate<F>) -> bool {
    gate matches Gate::Witness
}

/// The value of a byte gate of this kind is supplied, not fixed.
pub open spec fn byte_supplied(gate: ByteGate) -> bool {
    gate matches ByteGate::Witness
}

/// The number that an element stands for, if there is an element.
pub open spec fn element_val<F: PrimeModulus>(value: Option<FieldElement<F>>) -> Option<nat> {
    match value {
        Some(e) => Some(e@),
        None => None,
    }
}

impl ByteVar {
    /// Which gate, in the order of asking, the variable comes out of.
    pub closed spec fn position(&self) -> nat {
        self.index as nat
    }

    /// The byte that the variable stands for, if it has one.
    pub closed spec fn val(&self) -> Option<u8> {
        self.value
    }

    /// The byte that the variable takes in `model`, a circuit that has the
    /// variable's byte gate.
    pub open spec fn val_in<F: PrimeModulus>(&self, model: &Circuit<F>) -> Option<u8> {
        model.byte_at(self.position() as int)
    }

    pub fn index(&self) -> (r: usize)
        ensures
            r == self.position(),
    {
        self.index
    }

    /// The byte assigned to the variable.
    pub fn value(&self) -> (r: Result<u8, Error>)
        ensures
            r matches Ok(b) ==> self.val() == Some(b),
            r matches Err(e) ==> self.val() is None && e == Error::MissingWitness,
    {
        match self.value {
            Some(b) => Ok(b),
            None => Err(Error::MissingWitness),
        }
    }
}

impl<F: PrimeModulus> FieldVar<F> {
    /// Which gate, in the order of asking, the variable comes out of.
    pub closed spec fn position(&self) -> nat {
        self.index as nat
    }

    /// The number that the variable stands for, if it has one.
    pub closed spec fn val(&self) -> Option<nat> {
        element_val(self.value)
    }

    /// The value, if there is one, is a canonical representative.
    pub closed spec fn wf(&self) -> bool {
        self.value matches Some(e) ==> e.wf()
    }

    pub fn index(&self) -> (r: usize)
        ensures
            r == self.position(),
    {
        self.index
    }

    /// The number that the variable takes in `model`, a circuit that has
    /// the variable's gate.
    pub open spec fn val_in(&self, model: &Circuit<F>) -> Option<nat> {
        model.val_at(self.position() as int)
    }

    /// A canonical value is below the modulus.
    pub proof fn lemma_canonical(&self)
        requires
            self.wf(),
        ensures
            self.val() matches Some(v) ==> v < F::modulus(),
    {
    }
}

impl<F: NativeField> FieldVar<F> {
    /// The element assigned to the variable.
    pub fn value(&self) -> (r: Result<FieldElement<F>, Error>)
        ensures
            r matches Ok(e) ==> self.val() == Some(e@) && (self.wf() ==> e.wf()),
            r matches Err(e) ==> self.val() is None && e == Error::MissingWitness,
    {
        match &self.value {
            Some(e) => Ok(e.clone()),
            None => Err(Error::MissingWitness),
        }
    }

    /// The same variable once more.
    pub fn duplicate(&self) -> (r: Self)
        ensures
            r.position() == self.position(),
            r.val() == self.val(),
            r.wf() == self.wf(),
            forall|cs: Circuit<F>| #[trigger] cs.holds(self) ==> cs.holds(&r),
    {
        let value = match &self.value {
            Some(e) => Some(e.clone()),
            None => None,
        };
        FieldVar { index: self.index, value }
    }
}

/// The bytes that a sequence of byte variables stands for.
pub open spec fn byte_vals(bytes: Seq<ByteVar>) -> Seq<Option<u8>> {
    Seq::new(bytes.len(), |i: int| bytes[i].val())
}

/// The numbers that a sequence of field variables stands for.
pub open spec fn var_vals<F: PrimeModulus>(vars: Seq<FieldVar<F>>) -> Seq<Option<nat>> {
    Seq::new(vars.len(), |i: int| vars[i].val())
}

/// The bytes that a sequence of byte variables takes in `model`.
pub open spec fn bytes_in<F: PrimeModulus>(model: &Circuit<F>, bytes: Seq<ByteVar>) -> Seq<
    Option<u8>,
> {
    Seq::new(bytes.len(), |i: int| bytes[i].val_in(model))
}

/// The numbers that a sequence of field variables takes in `model`.
pub open spec fn vals_in<F: PrimeModulus>(model: &Circuit<F>, vars: Seq<FieldVar<F>>) -> Seq<
    Option<nat>,
> {
    Seq::new(vars.len(), |i: int| vars[i].val_in(model))
}

/// Every variable of the sequence that has a value has a canonical one.
pub open spec fn all_vars_wf<F: PrimeModulus>(vars: Seq<FieldVar<F>>) -> bool {
    forall|i: int| 0 <= i < vars.len() ==> (#[trigger] vars[i]).wf()
}

impl<F: PrimeModulus> Circuit<F> {
    /// The byte gates, in the order in which they were asked for.
    pub closed spec fn byte_gates_view(&self) -> Seq<ByteGate> {
        self.byte_gates@
    }

    /// The field gates, in the order in which they were asked for.
    pub closed spec fn gates_view(&self) -> Seq<Gate<F>> {
        self.gates@
    }

    /// The byte that the output of byte gate `i` takes.
    pub closed spec fn byte_at(&self, i: int) -> Option<u8> {
        self.byte_values@[i]
    }

    /// The number that the output of field gate `i` takes.
    pub closed spec fn val_at(&self, i: int) -> Option<nat> {
        element_val(self.values@[i])
    }

    /// The bytes that the outputs of the named byte gates take.
    pub open spec fn bytes_at(&self, positions: Seq<usize>) -> Seq<Option<u8>> {
        Seq::new(positions.len(), |j: int| self.byte_at(positions[j] as int))
    }

    /// The output of byte gate `i` takes a value that a gate of its kind allows.
    pub open spec fn byte_gate_holds(&self, i: int) -> bool {
        match self.byte_gates_view()[i] {
            ByteGate::Witness => true,
            ByteGate::Constant(b) => self.byte_at(i) == Some(b),
        }
    }

    /// The output of field gate `i` takes the value that such a gate computes
    /// from the values of its operands, which are outputs of earlier gates.
    pub open spec fn gate_holds(&self, i: int) -> bool {
        match self.gates_view()[i] {
            Gate::Witness => true,
            Gate::Constant(c) => self.val_at(i) == Some(c@),
            Gate::Pack(positions) => {
                &&& forall|j: int|
                    0 <= j < positions@.len() ==> (#[trigger] positions@[j])
                        < self.byte_gates_view().len()
                &&& self.val_at(i) == pack_val(F::modulus(), self.bytes_at(positions@))
            },
            Gate::Add(a, b) => {
                &&& a < i
                &&& b < i
                &&& self.val_at(i) == add_val(
                    F::modulus(),
                    self.val_at(a as int),
                    self.val_at(b as int),
                )
            },
            Gate::Mul(a, b) => {
                &&& a < i
                &&& b < i
                &&& self.val_at(i) == mul_val(
                    F::modulus(),
                    self.val_at(a as int),
                    self.val_at(b as int),
                )
            },
        }
    }

    /// The recorded values satisfy every recorded gate.
    pub closed spec fn wf(&self) -> bool {
        &&& self.byte_values@.len() == self.byte_gates@.len()
        &&& self.values@.len() == self.gates@.len()
        &&& forall|i: int| 0 <= i < self.byte_gates@.len() ==> #[trigger] self.byte_gate_holds(i)
        &&& forall|i: int| 0 <= i < self.gates@.len() ==> #[trigger] self.gate_holds(i)
    }

    /// The variable is an output of this circuit, with the value recorded here.
    pub closed spec fn holds(&self, v: &FieldVar<F>) -> bool {
        &&& v.index < self.values@.len()
        &&& element_val(self.values@[v.index as int]) == v.val()
    }

    /// The byte variable is an output of this circuit, with the value recorded here.
    pub closed spec fn holds_byte(&self, b: &ByteVar) -> bool {
        &&& b.index < self.byte_values@.len()
        &&& self.byte_values@[b.index as int] == b.value
    }

    /// Every variable of the sequence is an output of this circuit.
    pub open spec fn holds_all(&self, vars: Seq<FieldVar<F>>) -> bool {
        forall|i: int| 0 <= i < vars.len() ==> self.holds(#[trigger] &vars[i])
    }

    /// Every byte variable of the sequence is an output of this circuit.
    pub open spec fn holds_bytes(&self, bytes: Seq<ByteVar>) -> bool {
        forall|i: int| 0 <= i < bytes.len() ==> self.holds_byte(#[trigger] &bytes[i])
    }

    /// This circuit is `old` with more gates asked for: what was recorded
    /// there is recorded here, unchanged.
    pub open spec fn extends(&self, old: &Self) -> bool {
        &&& old.gates_view().len() <= self.gates_view().len()
        &&& old.byte_gates_view().len() <= self.byte_gates_view().len()
        &&& forall|i: int|
            0 <= i < old.gates_view().len() ==> (#[trigger] self.gates_view()[i])
                == old.gates_view()[i]
        &&& forall|i: int|
            0 <= i < old.byte_gates_view().len() ==> (#[trigger] self.byte_gates_view()[i])
                == old.byte_gates_view()[i]
        &&& forall|i: int|
            0 <= i < old.gates_view().len() ==> #[trigger] self.val_at(i) == old.val_at(i)
        &&& forall|i: int|
            0 <= i < old.byte_gates_view().len() ==> #[trigger] self.byte_at(i) == old.byte_at(i)
        &&& forall|v: FieldVar<F>| #[trigger] old.holds(&v) ==> self.holds(&v)
        &&& forall|b: ByteVar| #[trigger] old.holds_byte(&b) ==> self.holds_byte(&b)
    }

    /// `model` is a circuit that begins with the gates of this one and whose
    /// values satisfy all its gates: an assignment that satisfies this
    /// circuit. What holds of every such model holds whatever the prover
    /// supplies.
    pub open spec fn admits(&self, model: &Self) -> bool {
        &&& model.wf()
        &&& self.gates_view().len() <= model.gates_view().len()
        &&& self.byte_gates_view().len() <= model.byte_gates_view().len()
        &&& forall|i: int|
            0 <= i < self.gates_view().len() ==> (#[trigger] model.gates_view()[i])
                == self.gates_view()[i]
        &&& forall|i: int|
            0 <= i < self.byte_gates_view().len() ==> (#[trigger] model.byte_gates_view()[i])
                == self.byte_gates_view()[i]
    }

    /// A circuit whose values satisfy its gates is a model of itself, in
    /// which every variable that it holds takes its own value.
    pub proof fn lemma_own_model(&self)
        requires
            self.wf(),
        ensures
            self.admits(self),
            forall|v: FieldVar<F>| #[trigger] self.holds(&v) ==> v.val_in(self) == v.val(),
            forall|b: ByteVar| #[trigger] self.holds_byte(&b) ==> b.val_in(self) == b.val(),
    {
    }

    /// A model of a circuit is a model of every circuit that it extends.
    pub proof fn lemma_admits_earlier(&self, old: &Self, model: &Self)
        requires
            self.extends(old),
            self.admits(model),
        ensures
            old.admits(model),
    {
        assert forall|i: int| 0 <= i < old.gates_view().len() implies (
        #[trigger] model.gates_view()[i]) == old.gates_view()[i] by {
            assert(self.gates_view()[i] == old.gates_view()[i]);
        }
        assert forall|i: int| 0 <= i < old.byte_gates_view().len() implies (
        #[trigger] model.byte_gates_view()[i]) == old.byte_gates_view()[i] by {
            assert(self.byte_gates_view()[i] == old.byte_gates_view()[i]);
        }
    }

    /// This circuit is `old` with more gates asked for, none of them a
    /// witness: every value recorded since is computed from earlier ones.
    pub open spec fn derives(&self, old: &Self) -> bool {
        &&& self.extends(old)
        &&& forall|i: int|
            old.gates_view().len() <= i < self.gates_view().len() ==> !supplied(
                #[trigger] self.gates_view()[i],
            )
        &&& forall|i: int|
            old.byte_gates_view().len() <= i < self.byte_gates_view().len() ==> !byte_supplied(
                #[trigger] self.byte_gates_view()[i],
            )
    }

    /// The values of a circuit are determined by the values of its
    /// witnesses: two circuits of the same gates, each satisfied by its
    /// values, whose witness gates take the same values, take the same value
    /// at every gate.
    pub proof fn lemma_witness_determines_values(&self, other: &Self)
        requires
            self.wf(),
            other.wf(),
            self.gates_view() == other.gates_view(),
            self.byte_gates_view() == other.byte_gates_view(),
            forall|i: int|
                0 <= i < self.byte_gates_view().len() && byte_supplied(
                    #[trigger] self.byte_gates_view()[i],
                ) ==> self.byte_at(i) == other.byte_at(i),
            forall|i: int|
                0 <= i < self.gates_view().len() && supplied(#[trigger] self.gates_view()[i])
                    ==> self.val_at(i) == other.val_at(i),
        ensures
            forall|i: int|
                0 <= i < self.byte_gates_view().len() ==> #[trigger] self.byte_at(i)
                    == other.byte_at(i),
            forall|i: int|
                0 <= i < self.gates_view().len() ==> #[trigger] self.val_at(i) == other.val_at(i),
    {
        self.lemma_bytes_determined(other);
        self.lemma_values_determined(other, self.gates_view().len());
    }

    proof fn lemma_bytes_determined(&self, other: &Self)
        requires
            self.wf(),
            other.wf(),
            self.byte_gates_view() == other.byte_gates_view(),
            forall|i: int|
                0 <= i < self.byte_gates_view().len() && byte_supplied(
                    #[trigger] self.byte_gates_view()[i],
                ) ==> self.byte_at(i) == other.byte_at(i),
        ensures
            forall|i: int|
                0 <= i < self.byte_gates_view().len() ==> #[trigger] self.byte_at(i)
                    == other.byte_at(i),
    {
        assert forall|i: int| 0 <= i < self.byte_gates_view().len() implies #[trigger] self.byte_at(
            i,
        ) == other.byte_at(i) by {
            assert(self.byte_gate_holds(i));
            assert(other.byte_gate_holds(i));
        }
    }

    proof fn lemma_values_determined(&self, other: &Self, n: nat)
        requires
            self.wf(),
            other.wf(),
            n <= self.gates_view().len(),
            self.gates_view() == other.gates_view(),
            self.byte_gates_view() == other.byte_gates_view(),
            forall|i: int|
                0 <= i < self.byte_gates_view().len() ==> #[trigger] self.byte_at(i)
                    == other.byte_at(i),
            forall|i: int|
                0 <= i < self.gates_view().len() && supplied(#[trigger] self.gates_view()[i])
                    ==> self.val_at(i) == other.val_at(i),
        ensures
            forall|i: int| 0 <= i < n ==> #[trigger] self.val_at(i) == other.val_at(i),
        decreases n,
    {
        if n > 0 {
            self.lemma_values_determined(other, (n - 1) as nat);
            let last = n - 1;
            assert(self.gate_holds(last));
            assert(other.gate_holds(last));
            match self.gates_view()[last] {
                Gate::Pack(positions) => {
                    assert(self.bytes_at(positions@) =~= other.bytes_at(positions@));
                },
                _ => {},
            }
        }
    }

    /// What it is for the values to satisfy the gates: every gate holds.
    pub proof fn lemma_gates_hold(&self, i: int)
        requires
            self.wf(),
        ensures
            0 <= i < self.gates_view().len() ==> self.gate_holds(i),
            0 <= i < self.byte_gates_view().len() ==> self.byte_gate_holds(i),
    {
    }
}

impl<F: NativeField> Circuit<F> {
    /// A circuit with no gates.
    pub fn new() -> (r: Self)
        ensures
            r.wf(),
            r.gates_view().len() == 0,
            r.byte_gates_view().len() == 0,
    {
        Circuit {
            byte_gates: Vec::new(),
            byte_values: Vec::new(),
            gates: Vec::new(),
            values: Vec::new(),
        }
    }

    /// The number of field gates.
    pub fn num_gates(&self) -> (n: usize)
        ensures
            n == self.gates_view().len(),
    {
        self.gates.len()
    }

    /// The number of byte gates.
    pub fn num_byte_gates(&self) -> (n: usize)
        ensures
            n == self.byte_gates_view().len(),
    {
        self.byte_gates.len()
    }

    /// Field gate `i`.
    pub fn gate(&self, i: usize) -> (g: &Gate<F>)
        requires
            i < self.gates_view().len(),
        ensures
            *g == self.gates_view()[i as int],
    {
        &self.gates[i]
    }

    /// Byte gate `i`.
    pub fn byte_gate(&self, i: usize) -> (g: ByteGate)
        requires
            i < self.byte_gates_view().len(),
        ensures
            g == self.byte_gates_view()[i as int],
    {
        self.byte_gates[i]
    }

    /// The byte that the output of byte gate `i` takes, if it has one.
    pub fn byte_value_at(&self, i: usize) -> (b: Option<u8>)
        requires
            self.wf(),
            i < self.byte_gates_view().len(),
        ensures
            b == self.byte_at(i as int),
    {
        self.byte_values[i]
    }

    /// The element that the output of field gate `i` takes, if it has one.
    pub fn value_at(&self, i: usize) -> (e: Option<FieldElement<F>>)
        requires
            self.wf(),
            i < self.gates_view().len(),
        ensures
            element_val(e) == self.val_at(i as int),
    {
        match &self.values[i] {
            Some(e) => Some(e.clone()),
            None => None,
        }
    }

    /// New bytes that the prover supplies, one variable for each.
    pub fn byte_witnesses(&mut self, values: &[u8]) -> (r: Vec<ByteVar>)
        requires
            old(self).wf(),
        ensures
            final(self).wf(),
            final(self).extends(old(self)),
            final(self).holds_bytes(r@),
            final(self).gates_view() == old(self).gates_view(),
            r@.len() == values@.len(),
            byte_vals(r@) == crate::arith::given_bytes(values@),
            forall|m: Circuit<F>| #[trigger] final(self).admits(&m) ==> old(self).admits(&m),
    {
        let ghost start = *self;
        let mut vars: Vec<ByteVar> = Vec::new();
        let mut i: usize = 0;
        while i < values.len()
            invariant
                i <= values@.len(),
                self.wf(),
                self.extends(&start),
                self.holds_bytes(vars@),
                self.gates_view() == start.gates_view(),
                forall|m: Circuit<F>| #[trigger] self.admits(&m) ==> start.admits(&m),
                vars@.len() == i,
                forall|m: int| 0 <= m < i ==> (#[trigger] vars@[m]).val() == Some(values@[m]),
            decreases values@.len() - i,
        {
            let var = self.byte_witness(Some(values[i]));
            vars.push(var);
            i += 1;
        }
        proof {
            assert(byte_vals(vars@) =~= crate::arith::given_bytes(values@));
        }
        vars
    }

    /// A new byte that the prover supplies: `value`, or none while the
    /// circuit is only laid out.
    pub fn byte_witness(&mut self, value: Option<u8>) -> (r: ByteVar)
        requires
            old(self).wf(),
        ensures
            final(self).wf(),
            final(self).extends(old(self)),
            final(self).holds_byte(&r),
            final(self).gates_view() == old(self).gates_view(),
            final(self).byte_gates_view() == old(self).byte_gates_view().push(ByteGate::Witness),
            r.position() == old(self).byte_gates_view().len(),
            r.val() == value,
            forall|m: Circuit<F>| #[trigger] final(self).admits(&m) ==> old(self).admits(&m),
    {
        let ghost before = *self;
        let index: usize = self.byte_values.len();
        self.byte_gates.push(ByteGate::Witness);
        self.byte_values.push(value);
        proof {
            self.lemma_more_bytes(&before);
            assert forall|m: Circuit<F>| #[trigger] self.admits(&m) implies before.admits(&m) by {
                self.lemma_admits_earlier(&before, &m);
            }
        }
        ByteVar { index, value }
    }

    /// A new byte fixed to `value`.
    pub fn byte_constant(&mut self, value: u8) -> (r: ByteVar)
        requires
            old(self).wf(),
        ensures
            final(self).wf(),
            final(self).derives(old(self)),
            final(self).holds_byte(&r),
            final(self).gates_view() == old(self).gates_view(),
            final(self).byte_gates_view() == old(self).byte_gates_view().push(
                ByteGate::Constant(value),
            ),
            r.position() == old(self).byte_gates_view().len(),
            r.val() == Some(value),
            forall|m: Circuit<F>| #[trigger]
                final(self).admits(&m) ==> old(self).admits(&m) && r.val_in(&m) == Some(value),
    {
        let ghost before = *self;
        let index: usize = self.byte_values.len();
        self.byte_gates.push(ByteGate::Constant(value));
        self.byte_values.push(Some(value));
        proof {
            self.lemma_more_bytes(&before);
            assert forall|m: Circuit<F>| #[trigger] self.admits(&m) implies before.admits(&m)
                && m.byte_at(index as int) == Some(value) by {
                self.lemma_admits_earlier(&before, &m);
                assert(m.byte_gates_view()[index as int] == self.byte_gates_view()[index as int]);
                assert(m.byte_gate_holds(index as int));
            }
        }
        ByteVar { index, value: Some(value) }
    }

    /// A new element that the prover supplies: `value`, or none while the
    /// circuit is only laid out.
    pub fn witness(&mut self, value: Option<FieldElement<F>>) -> (r: FieldVar<F>)
        requires
            old(self).wf(),
        ensures
            final(self).wf(),
            final(self).extends(old(self)),
            final(self).holds(&r),
            final(self).byte_gates_view() == old(self).byte_gates_view(),
            final(self).gates_view() == old(self).gates_view().push(Gate::Witness),
            r.position() == old(self).gates_view().len(),
            r.val() == element_val(value),
            (value matches Some(e) ==> e.wf()) ==> r.wf(),
            forall|m: Circuit<F>| #[trigger] final(self).admits(&m) ==> old(self).admits(&m),
    {
        let kept = match &value {
            Some(e) => Some(e.clone()),
            None => None,
        };
        self.record(Gate::Witness, kept, Ghost(element_val(value)))
    }

    /// A new element fixed to `value`.
    pub fn constant(&mut self, value: &FieldElement<F>) -> (r: FieldVar<F>)
        requires
            old(self).wf(),
        ensures
            final(self).wf(),
            final(self).derives(old(self)),
            final(self).holds(&r),
            final(self).byte_gates_view() == old(self).byte_gates_view(),
            final(self).gates_view().len() == old(self).gates_view().len() + 1,
            final(self).gates_view().last() matches Gate::Constant(c) && c@ == value@,
            r.position() == old(self).gates_view().len(),
            r.val() == Some(value@),
            value.wf() ==> r.wf(),
            forall|m: Circuit<F>| #[trigger]
                final(self).admits(&m) ==> old(self).admits(&m) && r.val_in(&m) == Some(value@),
    {
        self.record(Gate::Constant(value.clone()), Some(value.clone()), Ghost(Some(value@)))
    }

    /// The sum of two variables.
    pub fn add(&mut self, a: &FieldVar<F>, b: &FieldVar<F>) -> (r: FieldVar<F>)
        requires
            old(self).wf(),
            old(self).holds(a),
            old(self).holds(b),
        ensures
            final(self).wf(),
            final(self).derives(old(self)),
            final(self).holds(&r),
            final(self).byte_gates_view() == old(self).byte_gates_view(),
            final(self).gates_view() == old(self).gates_view().push(
                Gate::Add(a.position() as usize, b.position() as usize),
            ),
            r.position() == old(self).gates_view().len(),
            r.val() == add_val(F::modulus(), a.val(), b.val()),
            r.wf(),
            forall|m: Circuit<F>| #[trigger]
                final(self).admits(&m) ==> old(self).admits(&m) && r.val_in(&m) == add_val(
                    F::modulus(),
                    a.val_in(&m),
                    b.val_in(&m),
                ),
    {
        let value = match (&a.value, &b.value) {
            (Some(x), Some(y)) => Some(x.add(y)),
            _ => None,
        };
        self.record(
            Gate::Add(a.index, b.index),
            value,
            Ghost(add_val(F::modulus(), a.val(), b.val())),
        )
    }

    /// The product of two variables.
    pub fn mul(&mut self, a: &FieldVar<F>, b: &FieldVar<F>) -> (r: FieldVar<F>)
        requires
            old(self).wf(),
            old(self).holds(a),
            old(self).holds(b),
        ensures
            final(self).wf(),
            final(self).derives(old(self)),
            final(self).holds(&r),
            final(self).byte_gates_view() == old(self).byte_gates_view(),
            final(self).gates_view() == old(self).gates_view().push(
                Gate::Mul(a.position() as usize, b.position() as usize),
            ),
            r.position() == old(self).gates_view().len(),
            r.val() == mul_val(F::modulus(), a.val(), b.val()),
            r.wf(),
            forall|m: Circuit<F>| #[trigger]
                final(self).admits(&m) ==> old(self).admits(&m) && r.val_in(&m) == mul_val(
                    F::modulus(),
                    a.val_in(&m),
                    b.val_in(&m),
                ),
    {
        let value = match (&a.value, &b.value) {
            (Some(x), Some(y)) => Some(x.mul(y)),
            _ => None,
        };
        self.record(
            Gate::Mul(a.index, b.index),
            value,
            Ghost(mul_val(F::modulus(), a.val(), b.val())),
        )
    }

    /// The element that a chunk of bytes packs into: the little-endian number
    /// that the bytes spell, reduced modulo the prime.
    pub fn pack(&mut self, bytes: &[ByteVar]) -> (r: FieldVar<F>)
        requires
            old(self).wf(),
            old(self).holds_bytes(bytes@),
        ensures
            final(self).wf(),
            final(self).derives(old(self)),
            final(self).holds(&r),
            final(self).byte_gates_view() == old(self).byte_gates_view(),
            final(self).gates_view().len() == old(self).gates_view().len() + 1,
            final(self).gates_view().last() matches Gate::Pack(positions) && positions@.len()
                == bytes@.len() && forall|j: int|
                0 <= j < bytes@.len() ==> positions@[j] == (#[trigger] bytes@[j]).position(),
            r.position() == old(self).gates_view().len(),
            r.val() == pack_val(F::modulus(), byte_vals(bytes@)),
            r.wf(),
            forall|m: Circuit<F>| #[trigger]
                final(self).admits(&m) ==> old(self).admits(&m) && r.val_in(&m) == pack_val(
                    F::modulus(),
                    bytes_in(&m, bytes@),
                ),
    {
        let ghost given = byte_vals(bytes@);
        let mut positions: Vec<usize> = Vec::new();
        let mut plain: Vec<u8> = Vec::new();
        let mut assigned = true;
        let mut j: usize = 0;
        while j < bytes.len()
            invariant
                j <= bytes@.len(),
                self.wf(),
                self.holds_bytes(bytes@),
                given == byte_vals(bytes@),
                positions@.len() == j,
                forall|m: int|
                    0 <= m < j ==> (#[trigger] positions@[m]) == bytes@[m].index && positions@[m]
                        < self.byte_values@.len(),
                assigned == all_assigned(given.take(j as int)),
                assigned ==> plain@ == assigned_bytes(given.take(j as int)),
            decreases bytes@.len() - j,
        {
            let byte = bytes[j];
            positions.push(byte.index);
            proof {
                assert(self.holds_byte(&bytes@[j as int]));
                let ghost shorter = given.take(j as int);
                let ghost longer = given.take(j as int + 1);
                assert(longer[j as int] == byte.value);
                assert(forall|m: int| 0 <= m < j ==> longer[m] == shorter[m]);
            }
            match byte.value {
                Some(b) => {
                    if assigned {
                        proof {
                            assert(all_assigned(given.take(j as int + 1)));
                            assert(plain@.push(b) =~= assigned_bytes(given.take(j as int + 1)));
                        }
                        plain.push(b);
                    } else {
                        proof {
                            let ghost shorter = given.take(j as int);
                            let ghost longer = given.take(j as int + 1);
                            let m = choose|m: int| 0 <= m < shorter.len() && shorter[m] is None;
                            assert(longer[m] is None);
                        }
                    }
                },
                None => {
                    proof {
                        assert(given.take(j as int + 1)[j as int] is None);
                    }
                    assigned = false;
                },
            }
            j += 1;
        }
        proof {
            assert(given.take(bytes@.len() as int) =~= given);
        }
        let value = if assigned {
            Some(F::reduce(plain.as_slice()))
        } else {
            None
        };
        let ghost stored = pack_val(F::modulus(), given);
        let ghost before = *self;
        let index: usize = self.values.len();
        let kept = match &value {
            Some(e) => Some(e.clone()),
            None => None,
        };
        self.gates.push(Gate::Pack(positions));
        self.values.push(kept);
        proof {
            self.lemma_more_gates(&before);
            assert(self.bytes_at(positions@) =~= given) by {
                assert forall|m: int| 0 <= m < positions@.len() implies self.bytes_at(
                    positions@,
                )[m] == given[m] by {
                    assert(before.holds_byte(&bytes@[m]));
                }
            }
            assert(self.gate_holds(index as int));
            assert forall|m: Circuit<F>| #[trigger] self.admits(&m) implies before.admits(&m)
                && m.val_at(index as int) == pack_val(F::modulus(), bytes_in(&m, bytes@)) by {
                self.lemma_admits_earlier(&before, &m);
                assert(m.gates_view()[index as int] == self.gates_view()[index as int]);
                assert(m.gate_holds(index as int));
                assert(m.bytes_at(positions@) =~= bytes_in(&m, bytes@));
            }
        }
        FieldVar { index, value }
    }

    /// Records a gate whose output takes `value`, the value that it computes.
    fn record(&mut self, gate: Gate<F>, value: Option<FieldElement<F>>, Ghost(computed): Ghost<
        Option<nat>,
    >) -> (r: FieldVar<F>)
        requires
            old(self).wf(),
            element_val(value) == computed,
            match gate {
                Gate::Witness => true,
                Gate::Constant(c) => computed == Some(c@),
                Gate::Pack(positions) => false,
                Gate::Add(a, b) => a < old(self).gates@.len() && b < old(self).gates@.len()
                    && computed == add_val(
                    F::modulus(),
                    old(self).val_at(a as int),
                    old(self).val_at(b as int),
                ),
                Gate::Mul(a, b) => a < old(self).gates@.len() && b < old(self).gates@.len()
                    && computed == mul_val(
                    F::modulus(),
                    old(self).val_at(a as int),
                    old(self).val_at(b as int),
                ),
            },
        ensures
            final(self).wf(),
            final(self).extends(old(self)),
            final(self).holds(&r),
            final(self).byte_gates_view() == old(self).byte_gates_view(),
            final(self).gates_view() == old(self).gates_view().push(gate),
            r.position() == old(self).gates_view().len(),
            r.val() == computed,
            r.value == value,
            !(gate matches Gate::Witness) ==> final(self).derives(old(self)),
            forall|m: Circuit<F>| #[trigger]
                final(self).admits(&m) ==> old(self).admits(&m) && m.gates_view()[r.position() as int]
                    == gate && m.gate_holds(r.position() as int),
    {
        let ghost before = *self;
        let index: usize = self.values.len();
        let kept = match &value {
            Some(e) => Some(e.clone()),
            None => None,
        };
        self.gates.push(gate);
        self.values.push(kept);
        proof {
            self.lemma_more_gates(&before);
            assert(self.gate_holds(index as int));
            assert forall|m: Circuit<F>| #[trigger] self.admits(&m) implies before.admits(&m)
                && m.gates_view()[index as int] == gate && m.gate_holds(index as int) by {
                self.lemma_admits_earlier(&before, &m);
                assert(m.gates_view()[index as int] == self.gates_view()[index as int]);
            }
        }
        FieldVar { index, value }
    }

    /// After one more field gate, all that held before still holds.
    proof fn lemma_more_gates(&self, before: &Self)
        requires
            before.wf(),
            self.byte_gates@ == before.byte_gates@,
            self.byte_values@ == before.byte_values@,
            self.gates@.len() == before.gates@.len() + 1,
            self.values@.len() == before.values@.len() + 1,
            self.gates@.drop_last() =~= before.gates@,
            self.values@.drop_last() =~= before.values@,
        ensures
            self.extends(before),
            forall|i: int| 0 <= i < before.gates@.len() ==> self.gate_holds(i),
            forall|i: int| 0 <= i < self.byte_gates@.len() ==> self.byte_gate_holds(i),
    {
        assert forall|i: int| 0 <= i < before.gates@.len() implies self.gate_holds(i) by {
            assert(before.gate_holds(i));
            assert(self.gates@[i] == before.gates@[i]);
            match before.gates@[i] {
                Gate::Pack(positions) => {
                    assert(self.bytes_at(positions@) =~= before.bytes_at(positions@));
                },
                _ => {},
            }
        }
        assert forall|i: int| 0 <= i < self.byte_gates@.len() implies self.byte_gate_holds(i) by {
            assert(before.byte_gate_holds(i));
        }
    }

    /// After one more byte gate, all that held before still holds.
    proof fn lemma_more_bytes(&self, before: &Self)
        requires
            before.wf(),
            self.gates@ == before.gates@,
            self.values@ == before.values@,
            self.byte_gates@.len() == before.byte_gates@.len() + 1,
            self.byte_values@.len() == before.byte_values@.len() + 1,
            self.byte_gates@.drop_last() =~= before.byte_gates@,
            self.byte_values@.drop_last() =~= before.byte_values@,
            self.byte_gate_holds(before.byte_gates@.len() as int),
        ensures
            self.wf(),
            self.extends(before),
    {
        assert forall|i: int| 0 <= i < self.gates@.len() implies self.gate_holds(i) by {
            assert(before.gate_holds(i));
            match before.gates@[i] {
                Gate::Pack(positions) => {
                    assert(self.bytes_at(positions@) =~= before.bytes_at(positions@));
                },
                _ => {},
            }
        }
        assert forall|i: int| 0 <= i < self.byte_gates@.len() implies self.byte_gate_holds(i) by {
            if i < before.byte_gates@.len() {
                assert(before.byte_gate_holds(i));
            }
        }
    }
}

} // verus!
