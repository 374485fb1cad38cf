//! The one polynomial identity that every enabled row satisfies.
//!
//! A row has six witness values `l0, l1, l2, l3, d, d_next` and nine
//! coefficients `c0, c1, c2, c3, cd, cdn, c03, c12, c`. The identity is
//!
//! `l0*c0 + l1*c1 + l2*c2 + l3*c3 + d*cd + d_next*cdn + l0*l3*c03 + l1*l2*c12 + c = 0`
//!
//! in the field.

use crate::field::{fadd, fmul, modulus, Fe};
use vstd::arithmetic::div_mod::{lemma_add_mod_noop, lemma_mul_mod_noop};
use vstd::prelude::*;

verus! {

/// The left side of the identity, computed in the integers.
pub open spec fn gate_poly(w: Seq<nat>, c: Seq<nat>) -> nat {
    w[0] * c[0] + w[1] * c[1] + w[2] * c[2] + w[3] * c[3] + w[4] * c[4] + w[5] * c[5]
        + w[0] * w[3] * c[6] + w[1] * w[2] * c[7] + c[8]
}

/// The left side of the identity, in the field.
pub open spec fn gate_residue(w: Seq<nat>, c: Seq<nat>) -> nat {
    gate_poly(w, c) % modulus()
}

/// Whether witness values and coefficients satisfy the identity.
pub open spec fn identity_holds(w: Seq<nat>, c: Seq<nat>) -> bool {
    gate_residue(w, c) == 0
}

/// The left side of the identity, term by term.
pub proof fn lemma_gate_poly_terms(w: Seq<nat>, c: Seq<nat>)
    ensures
        gate_poly(w, c) == w[0] * c[0] + w[1] * c[1] + w[2] * c[2] + w[3] * c[3] + w[4] * c[4]
            + w[5] * c[5] + w[0] * w[3] * c[6] + w[1] * w[2] * c[7] + c[8],
{
}

/// The numbers that a sequence of field elements stands for.
pub open spec fn fe_values(s: Seq<Fe>) -> Seq<nat> {
    Seq::new(s.len(), |i: int| s[i]@)
}

/// Reducing both terms of a sum first does not change the reduced sum.
pub proof fn lemma_fadd_reduced(x: nat, y: nat)
    ensures
        fadd(x % modulus(), y % modulus()) == (x + y) % modulus(),
{
    lemma_add_mod_noop(x as int, y as int, modulus() as int);
}

/// Reducing both factors of a product first does not change the reduced
/// product.
pub proof fn lemma_fmul_reduced(x: nat, y: nat)
    ensures
        fmul(x % modulus(), y % modulus()) == (x * y) % modulus(),
{
    lemma_mul_mod_noop(x as int, y as int, modulus() as int);
}

/// A field product of two elements: the shadow of the result is the product
/// of the shadows.
pub(crate) fn mul_shadow(a: &Fe, b: &Fe, Ghost(x): Ghost<nat>, Ghost(y): Ghost<nat>) -> (r: Fe)
    requires
        a@ == x % modulus(),
        b@ == y % modulus(),
    ensures
        r@ == (x * y) % modulus(),
{
    proof {
        lemma_fmul_reduced(x, y);
    }
    a.mul(b)
}

/// A field sum of two elements: the shadow of the result is the sum of the
/// shadows.
pub(crate) fn add_shadow(a: &Fe, b: &Fe, Ghost(x): Ghost<nat>, Ghost(y): Ghost<nat>) -> (r: Fe)
    requires
        a@ == x % modulus(),
        b@ == y % modulus(),
    ensures
        r@ == (x + y) % modulus(),
{
    proof {
        lemma_fadd_reduced(x, y);
    }
    a.add(b)
}

/// The left side of the identity for the given witness values and
/// coefficients. It is zero exactly when the identity holds.
pub fn gate_value(w: &[Fe; 6], c: &[Fe; 9]) -> (r: Fe)
    ensures
        r@ == gate_residue(fe_values(w@), fe_values(c@)),
        (r@ == 0) == identity_holds(fe_values(w@), fe_values(c@)),
{
    let ghost wv = fe_values(w@);
    let ghost cv = fe_values(c@);
    let (w0, w1, w2, w3, w4, w5) = (&w[0], &w[1], &w[2], &w[3], &w[4], &w[5]);
    let (c0, c1, c2, c3, c4) = (&c[0], &c[1], &c[2], &c[3], &c[4]);
    let (c5, c6, c7, c8) = (&c[5], &c[6], &c[7], &c[8]);
    proof {
        use_type_invariant(w0);
        use_type_invariant(w1);
        use_type_invariant(w2);
        use_type_invariant(w3);
        use_type_invariant(w4);
        use_type_invariant(w5);
        use_type_invariant(c0);
        use_type_invariant(c1);
        use_type_invariant(c2);
        use_type_invariant(c3);
        use_type_invariant(c4);
        use_type_invariant(c5);
        use_type_invariant(c6);
        use_type_invariant(c7);
        use_type_invariant(c8);
    }
    let t0 = mul_shadow(w0, c0, Ghost(wv[0]), Ghost(cv[0]));
    let t1 = mul_shadow(w1, c1, Ghost(wv[1]), Ghost(cv[1]));
    let t2 = mul_shadow(w2, c2, Ghost(wv[2]), Ghost(cv[2]));
    let t3 = mul_shadow(w3, c3, Ghost(wv[3]), Ghost(cv[3]));
    let t4 = mul_shadow(w4, c4, Ghost(wv[4]), Ghost(cv[4]));
    let t5 = mul_shadow(w5, c5, Ghost(wv[5]), Ghost(cv[5]));
    let q03 = mul_shadow(w0, w3, Ghost(wv[0]), Ghost(wv[3]));
    let t6 = mul_shadow(&q03, c6, Ghost(wv[0] * wv[3]), Ghost(cv[6]));
    let q12 = mul_shadow(w1, w2, Ghost(wv[1]), Ghost(wv[2]));
    let t7 = mul_shadow(&q12, c7, Ghost(wv[1] * wv[2]), Ghost(cv[7]));
    let ghost upto0 = wv[0] * cv[0];
    let ghost upto1 = upto0 + wv[1] * cv[1];
    let ghost upto2 = upto1 + wv[2] * cv[2];
    let ghost upto3 = upto2 + wv[3] * cv[3];
    let ghost upto4 = upto3 + wv[4] * cv[4];
    let ghost upto5 = upto4 + wv[5] * cv[5];
    let ghost upto6 = upto5 + wv[0] * wv[3] * cv[6];
    let ghost upto7 = upto6 + wv[1] * wv[2] * cv[7];
    let s1 = add_shadow(&t0, &t1, Ghost(upto0), Ghost(wv[1] * cv[1]));
    let s2 = add_shadow(&s1, &t2, Ghost(upto1), Ghost(wv[2] * cv[2]));
    let s3 = add_shadow(&s2, &t3, Ghost(upto2), Ghost(wv[3] * cv[3]));
    let s4 = add_shadow(&s3, &t4, Ghost(upto3), Ghost(wv[4] * cv[4]));
    let s5 = add_shadow(&s4, &t5, Ghost(upto4), Ghost(wv[5] * cv[5]));
    let s6 = add_shadow(&s5, &t6, Ghost(upto5), Ghost(wv[0] * wv[3] * cv[6]));
    let s7 = add_shadow(&s6, &t7, Ghost(upto6), Ghost(wv[1] * wv[2] * cv[7]));
    add_shadow(&s7, c8, Ghost(upto7), Ghost(cv[8]))
}

} // verus!
