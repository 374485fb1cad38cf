//! Assigning rows: the values of a row go into a region, values that were
//! assigned before are tied to their cells, and a row with a hint asks the
//! lookup assist for evidence.

use crate::config::CommonGateConfig;
use crate::field::Fe;
use crate::gate::{fe_values, gate_poly, gate_value, identity_holds, lemma_gate_poly_terms};
use crate::region::{
    anchored, limb_views, views, wired, with_line, witness_values, Cell, Error, Limb, LimbView,
    Region, RegionView, RowView,
};
use vstd::prelude::*;

verus! {

/// The part of a range check that assigned rows talk to.
pub trait LookupAssistChip {
    /// Asks for evidence that `value` is within the bound that `sz` stands
    /// for. The chip fails where it cannot give any.
    fn provide_lookup_evidence(&mut self, value: Fe, sz: u64) -> Result<(), Error>;
}

/// A request for evidence that `value` is within the bound that `hint`
/// stands for.
pub struct LookupRequest {
    pub value: nat,
    pub hint: u64,
}

/// A lookup chip together with the record of what was asked of it.
pub struct LookupAssist<LC: LookupAssistChip> {
    chip: LC,
    asked: Ghost<Seq<LookupRequest>>,
}

impl<LC: LookupAssistChip> LookupAssist<LC> {
    /// The requests that were made of the chip, oldest first.
    pub closed spec fn asked(&self) -> Seq<LookupRequest> {
        self.asked@
    }

    /// The chip, as a specification.
    pub closed spec fn inner(&self) -> LC {
        self.chip
    }

    /// Takes a chip of which nothing was asked yet.
    pub fn new(chip: LC) -> (r: Self)
        ensures
            r.asked() == Seq::<LookupRequest>::empty(),
            r.inner() == chip,
    {
        LookupAssist { chip, asked: Ghost(Seq::empty()) }
    }

    /// The chip.
    pub fn chip(&self) -> (r: &LC)
        ensures
            *r == self.inner(),
    {
        &self.chip
    }

    /// Hands the chip back.
    pub fn into_chip(self) -> (r: LC)
        ensures
            r == self.inner(),
    {
        self.chip
    }

    /// Asks the chip for evidence that `value` is within the bound that `sz`
    /// stands for, and records the request.
    pub fn ask(&mut self, value: Fe, sz: u64) -> (r: Result<(), Error>)
        ensures
            final(self).asked() == old(self).asked().push(
                LookupRequest { value: value@, hint: sz },
            ),
    {
        proof {
            self.asked@ = self.asked@.push(LookupRequest { value: value@, hint: sz });
        }
        self.chip.provide_lookup_evidence(value, sz)
    }
}

/// The requests after a row with the given first value and hint: one more
/// where the hint is not zero, for evidence on the first value.
pub open spec fn requests_after(before: Seq<LookupRequest>, first: nat, hint: u64) -> Seq<
    LookupRequest,
> {
    if hint == 0 {
        before
    } else {
        before.push(LookupRequest { value: first, hint })
    }
}

/// The nine coefficients of a row: zero where none is given.
pub open spec fn coeff_values(coeffs: Seq<Option<Fe>>) -> Seq<nat> {
    Seq::new(
        9,
        |i: int|
            if i < coeffs.len() {
                match coeffs[i] {
                    Some(c) => c@,
                    None => 0,
                }
            } else {
                0
            },
    )
}

/// Nine coefficients that are all zero.
pub open spec fn no_coeffs() -> Seq<nat> {
    Seq::new(9, |i: int| 0nat)
}

/// Why a row with the selector on is refused, if it is: its values do not
/// satisfy the identity, or its offset is taken.
pub open spec fn line_refusal(region: RegionView, offset: nat, w: Seq<nat>, c: Seq<nat>) -> Option<
    Error,
> {
    if !identity_holds(w, c) {
        Some(Error::IdentityViolation)
    } else if !region.free_at(offset) {
        Some(Error::CellOccupied)
    } else {
        None
    }
}

/// The value of a slot, zero for an empty one.
fn slot_or_zero(slot: &Option<Limb>) -> (r: Fe)
    ensures
        r@ == crate::region::slot_value(
            match *slot {
                Some(limb) => Some(limb@),
                None => None,
            },
        ),
{
    match slot {
        Some(limb) => limb.value(),
        None => Fe::zero(),
    }
}

/// A coefficient, zero where none is given.
fn coeff_or_zero(coeff: &Option<Fe>) -> (r: Fe)
    ensures
        r@ == match *coeff {
            Some(c) => c@,
            None => 0,
        },
{
    match coeff {
        Some(c) => *c,
        None => Fe::zero(),
    }
}

/// Ends the assignment of a row with what the lookup assist answered: on
/// evidence the offset moves on by one and the limbs of the row are handed
/// back, on failure the offset stays and the failure is handed on.
pub fn close_row(evidence: Result<(), Error>, limbs: Vec<Limb>, offset: &mut usize) -> (r: Result<
    Vec<Limb>,
    Error,
>)
    requires
        *old(offset) < usize::MAX,
    ensures
        match evidence {
            Ok(_) => r == Ok::<Vec<Limb>, Error>(limbs) && *final(offset) == *old(offset) + 1,
            Err(e) => r == Err::<Vec<Limb>, Error>(e) && *final(offset) == *old(offset),
        },
{
    match evidence {
        Ok(_) => {
            *offset = *offset + 1;
            Ok(limbs)
        },
        Err(e) => Err(e),
    }
}

impl CommonGateConfig {
    /// Assigns one row under the identity.
    ///
    /// The six values and nine coefficients, with zero for each that is
    /// missing, must satisfy the identity, and `offset` must lie beyond the
    /// rows of the region: otherwise nothing is changed. The row is then
    /// recorded with its selector on, each value that was anchored before is
    /// tied to its cell, and with a hint that is not zero the lookup assist is
    /// asked once, for evidence on the first value. Where it gives evidence,
    /// or is not asked, the offset moves on by one and the limbs of the
    /// values come back, anchored in the new row.
    pub fn assign_line<LC: LookupAssistChip>(
        &self,
        region: &mut Region,
        lookup_assist_chip: &mut LookupAssist<LC>,
        offset: &mut usize,
        value: [Option<Limb>; 6],
        coeffs: [Option<Fe>; 9],
        hint: u64,
    ) -> (r: Result<Vec<Limb>, Error>)
        requires
            old(region)@.wf(),
            *old(offset) < usize::MAX,
            hint != 0 ==> value[0] is Some,
        ensures
            final(region)@.wf(),
            match line_refusal(
                old(region)@,
                *old(offset) as nat,
                witness_values(limb_views(value@)),
                coeff_values(coeffs@),
            ) {
                Some(e) => {
                    &&& r == Err::<Vec<Limb>, Error>(e)
                    &&& final(region)@ == old(region)@
                    &&& *final(offset) == *old(offset)
                    &&& final(lookup_assist_chip).asked() == old(lookup_assist_chip).asked()
                },
                None => {
                    &&& final(region)@ == with_line(
                        old(region)@,
                        *old(offset) as nat,
                        limb_views(value@),
                        coeff_values(coeffs@),
                        true,
                        hint,
                    )
                    &&& final(lookup_assist_chip).asked() == requests_after(
                        old(lookup_assist_chip).asked(),
                        witness_values(limb_views(value@))[0],
                        hint,
                    )
                    &&& match r {
                        Ok(limbs) => {
                            &&& views(limbs@) == anchored(
                                old(region)@.index,
                                old(region)@.rows.len() as usize,
                                limb_views(value@),
                                6,
                            )
                            &&& *final(offset) == *old(offset) + 1
                        },
                        Err(_) => hint != 0 && *final(offset) == *old(offset),
                    }
                },
            },
    {
        let w: [Fe; 6] = [
            slot_or_zero(&value[0]),
            slot_or_zero(&value[1]),
            slot_or_zero(&value[2]),
            slot_or_zero(&value[3]),
            slot_or_zero(&value[4]),
            slot_or_zero(&value[5]),
        ];
        let c: [Fe; 9] = [
            coeff_or_zero(&coeffs[0]),
            coeff_or_zero(&coeffs[1]),
            coeff_or_zero(&coeffs[2]),
            coeff_or_zero(&coeffs[3]),
            coeff_or_zero(&coeffs[4]),
            coeff_or_zero(&coeffs[5]),
            coeff_or_zero(&coeffs[6]),
            coeff_or_zero(&coeffs[7]),
            coeff_or_zero(&coeffs[8]),
        ];
        proof {
            assert(fe_values(w@) =~= witness_values(limb_views(value@)));
            assert(fe_values(c@) =~= coeff_values(coeffs@));
        }
        if !gate_value(&w, &c).is_zero() {
            return Err(Error::IdentityViolation);
        }
        if !region.free_at(*offset) {
            return Err(Error::CellOccupied);
        }
        let limbs = region.commit(*offset, value.as_slice(), w, c, true, hint);
        let evidence = if hint != 0 {
            lookup_assist_chip.ask(w[0], hint)
        } else {
            Ok(())
        };
        close_row(evidence, limbs, offset)
    }

    /// Assigns one row of free witnesses: as `assign_line`, but with five
    /// values, no coefficients and the selector left off, so that no identity
    /// is enforced on the row.
    pub fn assign_witness<LC: LookupAssistChip>(
        &self,
        region: &mut Region,
        lookup_assist_chip: &mut LookupAssist<LC>,
        offset: &mut usize,
        value: [Option<Limb>; 5],
        hint: u64,
    ) -> (r: Result<Vec<Limb>, Error>)
        requires
            old(region)@.wf(),
            *old(offset) < usize::MAX,
            hint != 0 ==> value[0] is Some,
        ensures
            final(region)@.wf(),
            if !old(region)@.free_at(*old(offset) as nat) {
                &&& r == Err::<Vec<Limb>, Error>(Error::CellOccupied)
                &&& final(region)@ == old(region)@
                &&& *final(offset) == *old(offset)
                &&& final(lookup_assist_chip).asked() == old(lookup_assist_chip).asked()
            } else {
                &&& final(region)@ == with_line(
                    old(region)@,
                    *old(offset) as nat,
                    limb_views(value@),
                    no_coeffs(),
                    false,
                    hint,
                )
                &&& final(lookup_assist_chip).asked() == requests_after(
                    old(lookup_assist_chip).asked(),
                    witness_values(limb_views(value@))[0],
                    hint,
                )
                &&& match r {
                    Ok(limbs) => {
                        &&& views(limbs@) == anchored(
                            old(region)@.index,
                            old(region)@.rows.len() as usize,
                            limb_views(value@),
                            5,
                        )
                        &&& *final(offset) == *old(offset) + 1
                    },
                    Err(_) => hint != 0 && *final(offset) == *old(offset),
                }
            },
    {
        let zero = Fe::zero();
        let w: [Fe; 6] = [
            slot_or_zero(&value[0]),
            slot_or_zero(&value[1]),
            slot_or_zero(&value[2]),
            slot_or_zero(&value[3]),
            slot_or_zero(&value[4]),
            zero,
        ];
        let c: [Fe; 9] = [zero, zero, zero, zero, zero, zero, zero, zero, zero];
        proof {
            assert(fe_values(w@) =~= witness_values(limb_views(value@)));
            assert(fe_values(c@) =~= no_coeffs());
        }
        if !region.free_at(*offset) {
            return Err(Error::CellOccupied);
        }
        let limbs = region.commit(*offset, value.as_slice(), w, c, false, hint);
        let evidence = if hint != 0 {
            lookup_assist_chip.ask(w[0], hint)
        } else {
            Ok(())
        };
        close_row(evidence, limbs, offset)
    }

    /// Assigns a row that holds `value` as its first witness and as its
    /// coefficient `c03`, and hands back the limb of the witness. The row
    /// satisfies the identity whatever the value is, so that it is refused
    /// only where its offset is taken.
    pub fn assign_constant<LC: LookupAssistChip>(
        &self,
        region: &mut Region,
        lookup_assist_chip: &mut LookupAssist<LC>,
        offset: &mut usize,
        value: &Fe,
    ) -> (r: Result<Limb, Error>)
        requires
            old(region)@.wf(),
            *old(offset) < usize::MAX,
        ensures
            final(region)@.wf(),
            final(lookup_assist_chip).asked() == old(lookup_assist_chip).asked(),
            if !old(region)@.free_at(*old(offset) as nat) {
                &&& r == Err::<Limb, Error>(Error::CellOccupied)
                &&& final(region)@ == old(region)@
                &&& *final(offset) == *old(offset)
            } else {
                &&& final(region)@ == old(region)@.with_row(
                    RowView {
                        offset: *old(offset) as nat,
                        witness: constant_witness(value@),
                        coeffs: constant_coeffs(value@),
                        selector: true,
                        hint: 0,
                    },
                )
                &&& *final(offset) == *old(offset) + 1
                &&& r matches Ok(limb)
                &&& limb@ == (LimbView {
                    cell: Some(
                        Cell {
                            region: old(region)@.index,
                            row: old(region)@.rows.len() as usize,
                            slot: 0,
                        },
                    ),
                    value: value@,
                })
            },
    {
        let ghost slots = seq![
            Some(LimbView { cell: None, value: value@ }),
            None,
            None,
            None,
            None,
            None,
        ];
        let ghost index = region@.index;
        let ghost row = region@.rows.len() as usize;
        let ghost before = region@;
        let values = [Some(Limb::new(None, *value)), None, None, None, None, None];
        let coeffs = [None, None, None, None, None, None, Some(*value), None, None];
        proof {
            assert(limb_views(values@) =~= slots);
            assert(witness_values(slots) =~= constant_witness(value@));
            assert(coeff_values(coeffs@) =~= constant_coeffs(value@));
            lemma_constant_identity(value@);
        }
        match self.assign_line(region, lookup_assist_chip, offset, values, coeffs, 0) {
            Ok(limbs) => {
                proof {
                    reveal_with_fuel(anchored, 7);
                    reveal_with_fuel(wired, 7);
                    assert(views(limbs@).len() == 1);
                    assert(views(limbs@)[0] == limbs@[0]@);
                    assert(wired(index, row, slots, 6) =~= Seq::<(Cell, Cell)>::empty());
                    assert(before.copies + Seq::<(Cell, Cell)>::empty() =~= before.copies);
                }
                Ok(limbs[0])
            },
            Err(e) => Err(e),
        }
    }
}

/// The witness values of a row that holds a constant.
pub open spec fn constant_witness(value: nat) -> Seq<nat> {
    seq![value, 0, 0, 0, 0, 0]
}

/// The coefficients of a row that holds a constant.
pub open spec fn constant_coeffs(value: nat) -> Seq<nat> {
    seq![0, 0, 0, 0, 0, 0, value, 0, 0]
}

/// A row that holds a constant satisfies the identity.
pub proof fn lemma_constant_identity(value: nat)
    ensures
        identity_holds(constant_witness(value), constant_coeffs(value)),
{
    let w = constant_witness(value);
    let c = constant_coeffs(value);
    lemma_gate_poly_terms(w, c);
    assert(gate_poly(w, c) == 0) by (nonlinear_arith)
        requires
            gate_poly(w, c) == w[0] * c[0] + w[1] * c[1] + w[2] * c[2] + w[3] * c[3] + w[4] * c[4]
                + w[5] * c[5] + w[0] * w[3] * c[6] + w[1] * w[2] * c[7] + c[8],
            w[1] == 0,
            w[2] == 0,
            w[3] == 0,
            w[4] == 0,
            w[5] == 0,
            c[0] == 0,
            c[8] == 0,
    ;
}

} // verus!
