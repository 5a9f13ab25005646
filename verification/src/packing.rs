//! Packing input bytes into field elements.
//!
//! The bytes are cut into chunks of the field's serialised size, the last
//! chunk is filled up with zero bytes, and each chunk is read as a
//! little-endian number and reduced modulo the prime. The elements are then
//! laid out in a state as wide as the permutation, filled up with zeros.

use crate::arith::all_canonical;
use crate::arith::element_vals;
use crate::arith::given_bytes;
use crate::arith::pack_val;
use crate::circuit::all_vars_wf;
use crate::circuit::byte_vals;
use crate::circuit::bytes_in;
use crate::circuit::vals_in;
use crate::circuit::var_vals;
use crate::circuit::ByteVar;
use crate::circuit::Circuit;
use crate::circuit::FieldVar;
use crate::field::FieldElement;
use crate::field::NativeField;
use vstd::arithmetic::div_mod::lemma_fundamental_div_mod;
use vstd::arithmetic::mul::lemma_mul_inequality;
use vstd::arithmetic::mul::lemma_mul_is_commutative;
use vstd::prelude::*;

verus! {

/// The number of chunks of `size` bytes that `len` bytes fill, the last one perhaps in part.
pub open spec fn chunk_count(len: nat, size: nat) -> nat
    recommends
        size > 0,
{
    if len % size == 0 {
        len / size
    } else {
        len / size + 1
    }
}

/// The `index`-th chunk of the bytes: `size` of them, zero where the input has ended.
pub open spec fn chunk_at(bytes: Seq<Option<u8>>, size: nat, index: nat) -> Seq<Option<u8>> {
    Seq::new(
        size,
        |j: int|
            if index * size + j < bytes.len() {
                bytes[index * size + j]
            } else {
                Some(0u8)
            },
    )
}

/// The field elements that the bytes pack into, one for each chunk.
pub open spec fn packed(p: nat, size: nat, bytes: Seq<Option<u8>>) -> Seq<Option<nat>> {
    Seq::new(chunk_count(bytes.len(), size), |i: int| pack_val(p, chunk_at(bytes, size, i as nat)))
}

/// A state of `width` elements that begins with the given ones and goes on with zeros.
pub open spec fn padded_state(elements: Seq<Option<nat>>, width: nat) -> Seq<Option<nat>> {
    Seq::new(
        width,
        |i: int|
            if i < elements.len() {
                elements[i]
            } else {
                Some(0nat)
            },
    )
}

/// Every chunk but perhaps the last lies wholly inside the input.
pub proof fn lemma_chunk_start(len: nat, size: nat, index: nat)
    requires
        size > 0,
        index < chunk_count(len, size),
    ensures
        index * size < len,
        index + 1 < chunk_count(len, size) ==> (index + 1) * size <= len,
{
    lemma_fundamental_div_mod(len as int, size as int);
    let full = len / size;
    lemma_mul_is_commutative(size as int, full as int);
    if index < full {
        lemma_mul_inequality(index as int + 1, full as int, size as int);
        assert((index + 1) * size == index * size + size) by (nonlinear_arith);
    } else {
        assert(index == full);
    }
    if index + 1 < chunk_count(len, size) {
        lemma_mul_inequality(index as int + 1, full as int, size as int);
    }
}

/// Zero bytes at the end that start no new chunk change nothing: an input
/// that ends short of a chunk packs into the same elements as the input
/// filled up with zero bytes.
pub proof fn lemma_zero_padding(p: nat, size: nat, bytes: Seq<Option<u8>>, zeros: nat)
    requires
        size > 0,
        chunk_count(bytes.len() + zeros, size) == chunk_count(bytes.len(), size),
    ensures
        packed(p, size, bytes + Seq::new(zeros, |i: int| Some(0u8))) == packed(p, size, bytes),
{
    let longer = bytes + Seq::new(zeros, |i: int| Some(0u8));
    assert forall|i: int| 0 <= i < chunk_count(bytes.len(), size) implies #[trigger] chunk_at(
        longer,
        size,
        i as nat,
    ) =~= chunk_at(bytes, size, i as nat) by {}
    assert(packed(p, size, longer) =~= packed(p, size, bytes));
}

/// The number of chunks, computed without overflow.
pub fn count_chunks(len: usize, size: usize) -> (n: usize)
    requires
        size > 0,
    ensures
        n == chunk_count(len as nat, size as nat),
{
    let full: usize = len / size;
    let rest: usize = len % size;
    if rest == 0 {
        full
    } else {
        proof {
            lemma_fundamental_div_mod(len as int, size as int);
            lemma_mul_is_commutative(size as int, full as int);
            assert(size >= 2);
            assert(full * 2 <= full * size) by (nonlinear_arith)
                requires
                    size >= 2,
                    full >= 0,
            ;
        }
        full + 1
    }
}

/// Packs the bytes into field elements.
pub fn to_field_elements<F: NativeField>(bytes: &[u8]) -> (r: Vec<FieldElement<F>>)
    ensures
        all_canonical(r@),
        element_vals(r@) == packed(F::modulus(), F::chunk_len(), given_bytes(bytes@)),
{
    proof {
        F::field_bounds();
    }
    let size: usize = F::chunk_size();
    let len: usize = bytes.len();
    let count: usize = count_chunks(len, size);
    let ghost given = given_bytes(bytes@);
    let mut out: Vec<FieldElement<F>> = Vec::new();
    let mut i: usize = 0;
    while i < count
        invariant
            0 < size == F::chunk_len(),
            len == bytes@.len(),
            given == given_bytes(bytes@),
            count == chunk_count(len as nat, size as nat),
            i <= count,
            out@.len() == i,
            all_canonical(out@),
            forall|k: int|
                0 <= k < i ==> Some((#[trigger] out@[k])@) == pack_val(
                    F::modulus(),
                    chunk_at(given, size as nat, k as nat),
                ),
        decreases count - i,
    {
        proof {
            lemma_chunk_start(len as nat, size as nat, i as nat);
        }
        let start: usize = i * size;
        let mut chunk: Vec<u8> = Vec::new();
        let mut j: usize = 0;
        while j < size
            invariant
                j <= size,
                start < len,
                start == i * size,
                len == bytes@.len(),
                given == given_bytes(bytes@),
                chunk@.len() == j,
                forall|k: int|
                    0 <= k < j ==> Some(#[trigger] chunk@[k]) == chunk_at(
                        given,
                        size as nat,
                        i as nat,
                    )[k],
            decreases size - j,
        {
            let byte: u8 = if j < len - start {
                bytes[start + j]
            } else {
                0u8
            };
            chunk.push(byte);
            j += 1;
        }
        let element = FieldElement::<F>::from_le_bytes_mod_order(chunk.as_slice());
        proof {
            let wanted = chunk_at(given, size as nat, i as nat);
            assert(crate::arith::all_assigned(wanted));
            assert(crate::arith::assigned_bytes(wanted) =~= chunk@);
        }
        out.push(element);
        i += 1;
    }
    proof {
        assert(element_vals(out@) =~= packed(F::modulus(), F::chunk_len(), given));
    }
    out
}

/// Lays the elements out in a state of `width` elements, filled up with zeros.
pub fn pad_state<F: NativeField>(elements: Vec<FieldElement<F>>, width: usize) -> (r: Vec<
    FieldElement<F>,
>)
    requires
        elements@.len() <= width,
    ensures
        r@.len() == width,
        all_canonical(elements@) ==> all_canonical(r@),
        element_vals(r@) == padded_state(element_vals(elements@), width as nat),
{
    let ghost given = elements@;
    let mut state = elements;
    while state.len() < width
        invariant
            given.len() <= state@.len() <= width,
            all_canonical(given) ==> all_canonical(state@),
            forall|k: int| 0 <= k < given.len() ==> state@[k] == given[k],
            forall|k: int| given.len() <= k < state@.len() ==> (#[trigger] state@[k])@ == 0,
        decreases width - state@.len(),
    {
        state.push(FieldElement::zero());
    }
    proof {
        assert(element_vals(state@) =~= padded_state(element_vals(given), width as nat));
    }
    state
}

/// Packs byte variables into field variables, as `to_field_elements` packs
/// bytes: the last chunk is filled up with constant zero bytes.
pub fn to_field_var_elements<F: NativeField>(cs: &mut Circuit<F>, bytes: &[ByteVar]) -> (r: Vec<
    FieldVar<F>,
>)
    requires
        old(cs).wf(),
        old(cs).holds_bytes(bytes@),
    ensures
        final(cs).wf(),
        final(cs).derives(old(cs)),
        final(cs).holds_all(r@),
        all_vars_wf(r@),
        var_vals(r@) == packed(F::modulus(), F::chunk_len(), byte_vals(bytes@)),
        forall|m: Circuit<F>| #[trigger]
            final(cs).admits(&m) ==> old(cs).admits(&m) && vals_in(&m, r@) == packed(
                F::modulus(),
                F::chunk_len(),
                bytes_in(&m, bytes@),
            ),
{
    proof {
        F::field_bounds();
    }
    let size: usize = F::chunk_size();
    let len: usize = bytes.len();
    let count: usize = count_chunks(len, size);
    let ghost start_cs = *cs;
    let ghost given = byte_vals(bytes@);
    let mut out: Vec<FieldVar<F>> = Vec::new();
    let mut i: usize = 0;
    while i < count
        invariant
            0 < size == F::chunk_len(),
            len == bytes@.len(),
            given == byte_vals(bytes@),
            count == chunk_count(len as nat, size as nat),
            i <= count,
            cs.wf(),
            cs.derives(&start_cs),
            start_cs.holds_bytes(bytes@),
            cs.holds_all(out@),
            all_vars_wf(out@),
            out@.len() == i,
            forall|k: int|
                0 <= k < i ==> (#[trigger] out@[k]).val() == pack_val(
                    F::modulus(),
                    chunk_at(given, size as nat, k as nat),
                ),
            forall|m: Circuit<F>| #[trigger]
                cs.admits(&m) ==> start_cs.admits(&m) && forall|k: int|
                    0 <= k < i ==> (#[trigger] out@[k]).val_in(&m) == pack_val(
                        F::modulus(),
                        chunk_at(bytes_in(&m, bytes@), size as nat, k as nat),
                    ),
        decreases count - i,
    {
        proof {
            lemma_chunk_start(len as nat, size as nat, i as nat);
        }
        let ghost outer_cs = *cs;
        let first: usize = i * size;
        let mut chunk: Vec<ByteVar> = Vec::new();
        let mut j: usize = 0;
        while j < size
            invariant
                j <= size,
                first < len,
                first == i * size,
                len == bytes@.len(),
                given == byte_vals(bytes@),
                cs.wf(),
                cs.derives(&start_cs),
                start_cs.holds_bytes(bytes@),
                cs.holds_all(out@),
                cs.holds_bytes(chunk@),
                chunk@.len() == j,
                forall|k: int|
                    0 <= k < j ==> (#[trigger] chunk@[k]).val() == chunk_at(
                        given,
                        size as nat,
                        i as nat,
                    )[k],
                forall|m: Circuit<F>| #[trigger]
                    cs.admits(&m) ==> outer_cs.admits(&m) && forall|k: int|
                        0 <= k < j ==> (#[trigger] chunk@[k]).val_in(&m) == chunk_at(
                            bytes_in(&m, bytes@),
                            size as nat,
                            i as nat,
                        )[k],
            decreases size - j,
        {
            let byte: ByteVar = if j < len - first {
                proof {
                    assert(start_cs.holds_byte(&bytes@[first + j]));
                }
                bytes[first + j]
            } else {
                cs.byte_constant(0u8)
            };
            chunk.push(byte);
            j += 1;
        }
        proof {
            assert(byte_vals(chunk@) =~= chunk_at(given, size as nat, i as nat));
        }
        let ghost packing_cs = *cs;
        let element = cs.pack(chunk.as_slice());
        proof {
            assert forall|m: Circuit<F>| #[trigger] cs.admits(&m) implies start_cs.admits(&m)
                && element.val_in(&m) == pack_val(
                F::modulus(),
                chunk_at(bytes_in(&m, bytes@), size as nat, i as nat),
            ) by {
                assert(packing_cs.admits(&m));
                assert(bytes_in(&m, chunk@) =~= chunk_at(
                    bytes_in(&m, bytes@),
                    size as nat,
                    i as nat,
                ));
            }
        }
        out.push(element);
        i += 1;
    }
    proof {
        assert(var_vals(out@) =~= packed(F::modulus(), F::chunk_len(), given));
        assert forall|m: Circuit<F>| #[trigger] cs.admits(&m) implies vals_in(&m, out@) == packed(
            F::modulus(),
            F::chunk_len(),
            bytes_in(&m, bytes@),
        ) by {
            assert(vals_in(&m, out@) =~= packed(
                F::modulus(),
                F::chunk_len(),
                bytes_in(&m, bytes@),
            ));
        }
    }
    out
}

/// Lays the variables out in a state of `width` variables, filled up with
/// constant zeros.
pub fn pad_state_vars<F: NativeField>(
    cs: &mut Circuit<F>,
    elements: Vec<FieldVar<F>>,
    width: usize,
) -> (r: Vec<FieldVar<F>>)
    requires
        old(cs).wf(),
        old(cs).holds_all(elements@),
        elements@.len() <= width,
    ensures
        final(cs).wf(),
        final(cs).derives(old(cs)),
        final(cs).holds_all(r@),
        r@.len() == width,
        all_vars_wf(elements@) ==> all_vars_wf(r@),
        var_vals(r@) == padded_state(var_vals(elements@), width as nat),
        forall|m: Circuit<F>| #[trigger]
            final(cs).admits(&m) ==> old(cs).admits(&m) && vals_in(&m, r@) == padded_state(
                vals_in(&m, elements@),
                width as nat,
            ),
{
    let ghost given = elements@;
    let ghost start_cs = *cs;
    let zero = FieldElement::<F>::zero();
    let mut state = elements;
    while state.len() < width
        invariant
            cs.wf(),
            cs.derives(&start_cs),
            cs.holds_all(state@),
            zero.wf(),
            zero@ == 0,
            given.len() <= state@.len() <= width,
            all_vars_wf(given) ==> all_vars_wf(state@),
            forall|k: int| 0 <= k < given.len() ==> state@[k] == given[k],
            forall|k: int|
                given.len() <= k < state@.len() ==> (#[trigger] state@[k]).val() == Some(0nat),
            forall|m: Circuit<F>| #[trigger]
                cs.admits(&m) ==> start_cs.admits(&m) && forall|k: int|
                    given.len() <= k < state@.len() ==> (#[trigger] state@[k]).val_in(&m) == Some(
                        0nat,
                    ),
        decreases width - state@.len(),
    {
        let filler = cs.constant(&zero);
        state.push(filler);
    }
    proof {
        assert(var_vals(state@) =~= padded_state(var_vals(given), width as nat));
        assert forall|m: Circuit<F>| #[trigger] cs.admits(&m) implies vals_in(&m, state@)
            == padded_state(vals_in(&m, given), width as nat) by {
            assert(vals_in(&m, state@) =~= padded_state(vals_in(&m, given), width as nat));
        }
    }
    state
}

} // verus!
