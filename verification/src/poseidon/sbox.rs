//! The S-box of Poseidon: the nonlinear step of a round.
//!
//! The only kind is a power map, `x -> x^degree`, computed by squaring and
//! multiplying. It is written once for field elements and once for circuit
//! variables, with the same products in the same order.

use crate::arith::canonical;
use crate::arith::mul_val;
use crate::circuit::Circuit;
use crate::circuit::FieldVar;
use crate::field::FieldElement;
use crate::field::NativeField;
use vstd::arithmetic::div_mod::lemma_mul_mod_noop_general;
use vstd::arithmetic::power::lemma_pow1;
use vstd::arithmetic::power::lemma_pow_adds;
use vstd::arithmetic::power::pow;
use vstd::prelude::*;

verus! {

/// The kinds of S-box.
#[derive(Debug, Clone, Copy, PartialEq, Eq)]
pub enum PoseidonSbox {
    /// Raising to the given power.
    Exponentiation(usize),
}

/// `x` to the power `d` in the field of `p` elements. The power zero is one
/// whatever `x` is; any other power of a missing value is missing.
pub open spec fn pow_val(p: nat, x: Option<nat>, d: nat) -> Option<nat> {
    if d == 0 {
        Some(1nat)
    } else {
        match x {
            Some(v) => Some((pow(v as int, d) % (p as int)) as nat),
            None => None,
        }
    }
}

/// The product of two powers is the power of the sum of the exponents.
pub proof fn lemma_pow_val_adds(p: nat, x: Option<nat>, a: nat, b: nat)
    requires
        p > 1,
        a >= 1,
        b >= 1,
    ensures
        mul_val(p, pow_val(p, x, a), pow_val(p, x, b)) == pow_val(p, x, a + b),
{
    match x {
        Some(v) => {
            let m = p as int;
            lemma_pow_adds(v as int, a, b);
            lemma_mul_mod_noop_general(pow(v as int, a), pow(v as int, b), m);
        },
        None => {},
    }
}

/// The first power of a canonical value is the value.
pub proof fn lemma_pow_val_one(p: nat, x: Option<nat>)
    requires
        canonical(p, x),
    ensures
        pow_val(p, x, 1) == x,
{
    match x {
        Some(v) => {
            lemma_pow1(v as int);
            assert((v as int) % (p as int) == v) by (nonlinear_arith)
                requires
                    0 <= v < p,
            ;
        },
        None => {},
    }
}

impl PoseidonSbox {
    /// The power that the S-box raises to.
    pub open spec fn degree(&self) -> nat {
        match self {
            PoseidonSbox::Exponentiation(d) => *d as nat,
        }
    }

    /// The S-box of a field element.
    pub fn apply_sbox<F: NativeField>(&self, elem: &FieldElement<F>) -> (r: FieldElement<F>)
        requires
            elem.wf(),
        ensures
            r.wf(),
            Some(r@) == pow_val(F::modulus(), Some(elem@), self.degree()),
    {
        let degree: usize = match self {
            PoseidonSbox::Exponentiation(d) => *d,
        };
        if degree == 0 {
            return FieldElement::one();
        }
        let ghost p = F::modulus();
        let ghost x = Some(elem@);
        proof {
            F::field_bounds();
            lemma_pow_val_one(p, x);
        }
        let mut base = elem.clone();
        let mut acc: Option<FieldElement<F>> = None;
        let mut d: usize = degree;
        let ghost mut base_exp: nat = 1;
        let ghost mut acc_exp: nat = 0;
        while d > 0
            invariant
                p == F::modulus(),
                p > 1,
                x == Some(elem@),
                base_exp >= 1,
                acc_exp + base_exp * d == degree,
                base.wf(),
                Some(base@) == pow_val(p, x, base_exp),
                acc is None <==> acc_exp == 0,
                acc matches Some(a) ==> a.wf() && Some(a@) == pow_val(p, x, acc_exp),
            decreases d,
        {
            let ghost half: nat = (d / 2) as nat;
            if d % 2 == 1 {
                proof {
                    if acc_exp > 0 {
                        lemma_pow_val_adds(p, x, acc_exp, base_exp);
                    }
                    assert(base_exp * d == base_exp * (2 * half) + base_exp) by (nonlinear_arith)
                        requires
                            d == 2 * half + 1,
                    ;
                }
                acc = Some(
                    match acc {
                        None => base.clone(),
                        Some(a) => a.mul(&base),
                    },
                );
                proof {
                    acc_exp = acc_exp + base_exp;
                }
            } else {
                proof {
                    assert(base_exp * d == base_exp * (2 * half)) by (nonlinear_arith)
                        requires
                            d == 2 * half,
                    ;
                }
            }
            d = d / 2;
            if d > 0 {
                proof {
                    lemma_pow_val_adds(p, x, base_exp, base_exp);
                    assert(base_exp * (2 * half) == (base_exp + base_exp) * half)
                        by (nonlinear_arith);
                }
                base = base.mul(&base);
                proof {
                    base_exp = base_exp + base_exp;
                }
            } else {
                proof {
                    assert(base_exp * (2 * half) == 0) by (nonlinear_arith)
                        requires
                            half == 0,
                    ;
                }
            }
        }
        match acc {
            Some(a) => a,
            None => base,
        }
    }

    /// The S-box of a circuit variable: one product gate for each product
    /// that `apply_sbox` computes.
    pub fn synthesize_sbox<F: NativeField>(&self, cs: &mut Circuit<F>, input: &FieldVar<F>) -> (r:
        FieldVar<F>)
        requires
            old(cs).wf(),
            old(cs).holds(input),
            input.wf(),
        ensures
            final(cs).wf(),
            final(cs).derives(old(cs)),
            final(cs).holds(&r),
            r.wf(),
            r.val() == pow_val(F::modulus(), input.val(), self.degree()),
            forall|m: Circuit<F>| #[trigger]
                final(cs).admits(&m) ==> old(cs).admits(&m) && (canonical(
                    F::modulus(),
                    input.val_in(&m),
                ) ==> r.val_in(&m) == pow_val(F::modulus(), input.val_in(&m), self.degree())),
    {
        let degree: usize = match self {
            PoseidonSbox::Exponentiation(d) => *d,
        };
        if degree == 0 {
            let one = FieldElement::<F>::one();
            return cs.constant(&one);
        }
        let ghost p = F::modulus();
        let ghost x = input.val();
        let ghost start_cs = *cs;
        proof {
            F::field_bounds();
            input.lemma_canonical();
            lemma_pow_val_one(p, x);
            assert forall|y: Option<nat>| canonical(p, y) implies #[trigger] pow_val(p, y, 1)
                == y by {
                lemma_pow_val_one(p, y);
            }
        }
        let mut base = input.duplicate();
        let mut acc: Option<FieldVar<F>> = None;
        let mut d: usize = degree;
        let ghost mut base_exp: nat = 1;
        let ghost mut acc_exp: nat = 0;
        while d > 0
            invariant
                p == F::modulus(),
                p > 1,
                x == input.val(),
                cs.wf(),
                cs.derives(&start_cs),
                cs.holds(&base),
                base_exp >= 1,
                acc_exp + base_exp * d == degree,
                base.wf(),
                base.val() == pow_val(p, x, base_exp),
                acc is None <==> acc_exp == 0,
                acc matches Some(a) ==> cs.holds(&a) && a.wf() && a.val() == pow_val(
                    p,
                    x,
                    acc_exp,
                ),
                forall|m: Circuit<F>| #[trigger]
                    cs.admits(&m) ==> start_cs.admits(&m) && (canonical(p, input.val_in(&m)) ==> {
                        &&& base.val_in(&m) == pow_val(p, input.val_in(&m), base_exp)
                        &&& acc matches Some(a) ==> a.val_in(&m) == pow_val(
                            p,
                            input.val_in(&m),
                            acc_exp,
                        )
                    }),
            decreases d,
        {
            let ghost half: nat = (d / 2) as nat;
            let ghost entry_cs = *cs;
            let ghost entry_acc_exp = acc_exp;
            if d % 2 == 1 {
                proof {
                    if acc_exp > 0 {
                        lemma_pow_val_adds(p, x, acc_exp, base_exp);
                    }
                    assert(base_exp * d == base_exp * (2 * half) + base_exp) by (nonlinear_arith)
                        requires
                            d == 2 * half + 1,
                    ;
                }
                acc = Some(
                    match acc {
                        None => base.duplicate(),
                        Some(a) => cs.mul(&a, &base),
                    },
                );
                proof {
                    acc_exp = acc_exp + base_exp;
                    assert forall|m: Circuit<F>| #[trigger] cs.admits(&m) implies entry_cs.admits(
                        &m,
                    ) && (canonical(p, input.val_in(&m)) ==> acc.unwrap().val_in(&m) == pow_val(
                        p,
                        input.val_in(&m),
                        acc_exp,
                    )) by {
                        if entry_acc_exp > 0 {
                            lemma_pow_val_adds(p, input.val_in(&m), entry_acc_exp, base_exp);
                        }
                    }
                }
            } else {
                proof {
                    assert(base_exp * d == base_exp * (2 * half)) by (nonlinear_arith)
                        requires
                            d == 2 * half,
                    ;
                }
            }
            let ghost middle_cs = *cs;
            d = d / 2;
            if d > 0 {
                proof {
                    lemma_pow_val_adds(p, x, base_exp, base_exp);
                    assert(base_exp * (2 * half) == (base_exp + base_exp) * half)
                        by (nonlinear_arith);
                }
                base = cs.mul(&base, &base);
                proof {
                    assert forall|m: Circuit<F>| #[trigger] cs.admits(&m) implies middle_cs.admits(
                        &m,
                    ) && (canonical(p, input.val_in(&m)) ==> base.val_in(&m) == pow_val(
                        p,
                        input.val_in(&m),
                        base_exp + base_exp,
                    )) by {
                        lemma_pow_val_adds(p, input.val_in(&m), base_exp, base_exp);
                    }
                    base_exp = base_exp + base_exp;
                }
            } else {
                proof {
                    assert(base_exp * (2 * half) == 0) by (nonlinear_arith)
                        requires
                            half == 0,
                    ;
                }
            }
        }
        match acc {
            Some(a) => a,
            None => base,
        }
    }
}

} // verus!
