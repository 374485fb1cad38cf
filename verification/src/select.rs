//! Choosing between two values by a condition, in one row.

use crate::assign::{
    coeff_values, line_refusal, requests_after, LookupAssist, LookupAssistChip,
};
use crate::config::CommonGateConfig;
use crate::field::{modulus, Fe};
use crate::gate::{gate_poly, identity_holds, lemma_gate_poly_terms};
use crate::region::{
    anchored, limb_views, views, with_line, witness_values, Cell, Error, Limb, LimbView, Region,
};
use vstd::arithmetic::div_mod::lemma_mod_multiples_basic;
use vstd::prelude::*;

verus! {

/// The limb that a selection yields: `f` where the condition is zero, else
/// `t`.
pub open spec fn selected(cond: LimbView, f: LimbView, t: LimbView) -> LimbView {
    if cond.value == 0 {
        f
    } else {
        t
    }
}

/// The slots of the row of a selection: `l0 = t`, `l1 = f`, `l2 = l3 = cond`
/// and `d` the limb that is selected.
pub open spec fn select_slots(cond: LimbView, f: LimbView, t: LimbView) -> Seq<Option<LimbView>> {
    seq![Some(t), Some(f), Some(cond), Some(cond), Some(selected(cond, f, t)), None]
}

/// The coefficients of the row of a selection: `c1 = 1`, `cd = -1`,
/// `c03 = 1`, `c12 = -1`, so that the identity reads
/// `f - d + t*cond - f*cond = 0`.
pub open spec fn select_coeffs() -> Seq<nat> {
    seq![0, 1, 0, 0, (modulus() - 1) as nat, 0, 1, (modulus() - 1) as nat, 0]
}

/// With a condition of zero or one the row of a selection satisfies the
/// identity, whatever the two values are.
pub proof fn lemma_select_identity(cond: LimbView, f: LimbView, t: LimbView)
    requires
        cond.value == 0 || cond.value == 1,
    ensures
        identity_holds(witness_values(select_slots(cond, f, t)), select_coeffs()),
{
    let w = witness_values(select_slots(cond, f, t));
    let c = select_coeffs();
    let p = modulus();
    lemma_gate_poly_terms(w, c);
    assert(w[0] == t.value && w[1] == f.value && w[2] == cond.value && w[3] == cond.value);
    assert(w[4] == selected(cond, f, t).value && w[5] == 0);
    assert(gate_poly(w, c) == (f.value + t.value * cond.value) * p) by (nonlinear_arith)
        requires
            gate_poly(w, c) == w[0] * c[0] + w[1] * c[1] + w[2] * c[2] + w[3] * c[3] + w[4] * c[4]
                + w[5] * c[5] + w[0] * w[3] * c[6] + w[1] * w[2] * c[7] + c[8],
            w[0] == t.value,
            w[1] == f.value,
            w[2] == cond.value,
            w[3] == cond.value,
            w[4] == (if cond.value == 0 {
                f.value
            } else {
                t.value
            }),
            w[5] == 0,
            c[0] == 0,
            c[1] == 1,
            c[2] == 0,
            c[3] == 0,
            c[4] == p - 1,
            c[5] == 0,
            c[6] == 1,
            c[7] == p - 1,
            c[8] == 0,
            cond.value == 0 || cond.value == 1,
    ;
    lemma_mod_multiples_basic((f.value + t.value * cond.value) as int, p as int);
}

impl CommonGateConfig {
    /// Selects between `f` and `t`: the limb that comes back has the value of
    /// `f` where `cond` is zero and the value of `t` otherwise, and is
    /// anchored at the `d` cell of the one row that is assigned.
    ///
    /// The row does not force `cond` to be zero or one. With such a
    /// condition it satisfies the identity; with another it is refused
    /// unless its values happen to satisfy the identity.
    pub fn select<LC: LookupAssistChip>(
        &self,
        region: &mut Region,
        lookup_assist_chip: &mut LookupAssist<LC>,
        offset: &mut usize,
        cond: &Limb,
        f: &Limb,
        t: &Limb,
        hint: u64,
    ) -> (r: Result<Limb, Error>)
        requires
            old(region)@.wf(),
            *old(offset) < usize::MAX,
        ensures
            final(region)@.wf(),
            (cond@.value == 0 || cond@.value == 1) ==> identity_holds(
                witness_values(select_slots(cond@, f@, t@)),
                select_coeffs(),
            ),
            match line_refusal(
                old(region)@,
                *old(offset) as nat,
                witness_values(select_slots(cond@, f@, t@)),
                select_coeffs(),
            ) {
                Some(e) => {
                    &&& r == Err::<Limb, Error>(e)
                    &&& final(region)@ == old(region)@
                    &&& *final(offset) == *old(offset)
                    &&& final(lookup_assist_chip).asked() == old(lookup_assist_chip).asked()
                },
                None => {
                    &&& final(region)@ == with_line(
                        old(region)@,
                        *old(offset) as nat,
                        select_slots(cond@, f@, t@),
                        select_coeffs(),
                        true,
                        hint,
                    )
                    &&& final(lookup_assist_chip).asked() == requests_after(
                        old(lookup_assist_chip).asked(),
                        t@.value,
                        hint,
                    )
                    &&& match r {
                        Ok(limb) => {
                            &&& limb@ == (LimbView {
                                cell: Some(
                                    Cell {
                                        region: old(region)@.index,
                                        row: old(region)@.rows.len() as usize,
                                        slot: 4,
                                    },
                                ),
                                value: selected(cond@, f@, t@).value,
                            })
                            &&& *final(offset) == *old(offset) + 1
                        },
                        Err(_) => hint != 0 && *final(offset) == *old(offset),
                    }
                },
            },
    {
        let result = if cond.value().is_zero() {
            *f
        } else {
            *t
        };
        let one = Fe::one();
        let minus_one = one.neg();
        let values = [Some(*t), Some(*f), Some(*cond), Some(*cond), Some(result), None];
        let coeffs = [
            None,
            Some(one),
            None,
            None,
            Some(minus_one),
            None,
            Some(one),
            Some(minus_one),
            None,
        ];
        proof {
            assert(limb_views(values@) =~= select_slots(cond@, f@, t@));
            assert(coeff_values(coeffs@) =~= select_coeffs());
            if cond@.value == 0 || cond@.value == 1 {
                lemma_select_identity(cond@, f@, t@);
            }
        }
        match self.assign_line(region, lookup_assist_chip, offset, values, coeffs, hint) {
            Ok(limbs) => {
                proof {
                    reveal_with_fuel(anchored, 7);
                    assert(views(limbs@).len() == 5);
                    assert(views(limbs@)[4] == limbs@[4]@);
                }
                Ok(limbs[4])
            },
            Err(e) => Err(e),
        }
    }
}

} // verus!
