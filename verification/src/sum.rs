//! A weighted sum of values, with a constant, in rows that carry the running
//! total from one to the next.
//!
//! Up to three terms fit in one row. More terms go four to a row, each row
//! taking the total so far in `d` and leaving the new total in `d_next`, and
//! a last row adds the constant.

use crate::assign::{coeff_values, LookupAssist, LookupAssistChip};
use crate::config::CommonGateConfig;
use crate::field::{modulus, Fe};
use crate::gate::{gate_poly, lemma_gate_poly_terms};
use crate::region::{
    anchored, carried, free, lemma_with_lines_wf, limb_views, views, with_line, with_lines,
    witness_values, Cell, Error, Limb, LimbView, Line, Region,
};
use vstd::arithmetic::div_mod::{
    lemma_add_mod_noop, lemma_add_mod_noop_right, lemma_fundamental_div_mod,
    lemma_mod_multiples_basic,
};
use vstd::prelude::*;

verus! {

/// What the terms of a sum stand for: each a limb and its weight.
pub open spec fn terms_of(inputs: Seq<(&Limb, Fe)>) -> Seq<(LimbView, nat)> {
    Seq::new(inputs.len(), |i: int| ((*inputs[i].0)@, inputs[i].1@))
}

/// The constant of a sum: zero where none is given.
pub open spec fn constant_value(constant: Option<Fe>) -> nat {
    match constant {
        Some(c) => c@,
        None => 0,
    }
}

/// The sum of the values of the terms, each times its weight, in the
/// integers.
pub open spec fn weighted_sum(terms: Seq<(LimbView, nat)>) -> nat
    decreases terms.len(),
{
    if terms.len() == 0 {
        0
    } else {
        weighted_sum(terms.drop_last()) + terms.last().0.value * terms.last().1
    }
}

/// What `sum_with_constant` computes: the weighted sum of the terms plus the
/// constant, in the field.
pub open spec fn sum_value(terms: Seq<(LimbView, nat)>, constant: nat) -> nat {
    (weighted_sum(terms) + constant) % modulus()
}

/// The running total before the term `upto`, in the field; the full sum
/// where `upto` is beyond the terms.
pub open spec fn partial(terms: Seq<(LimbView, nat)>, upto: int) -> nat {
    if upto < terms.len() {
        weighted_sum(terms.take(upto)) % modulus()
    } else {
        weighted_sum(terms) % modulus()
    }
}

/// The limb of the term `i`, if there is such a term.
pub open spec fn term_slot(terms: Seq<(LimbView, nat)>, i: int) -> Option<LimbView> {
    if 0 <= i < terms.len() {
        Some(terms[i].0)
    } else {
        None
    }
}

/// The weight of the term `i`; zero if there is no such term.
pub open spec fn term_coeff(terms: Seq<(LimbView, nat)>, i: int) -> nat {
    if 0 <= i < terms.len() {
        terms[i].1
    } else {
        0
    }
}

/// The row of the terms `4j` to `4j + 3`: they stand in `l0` to `l3` with
/// their weights, `d` holds the total before them and `d_next` the total
/// after them: `l0*c0 + l1*c1 + l2*c2 + l3*c3 + d - d_next = 0`.
pub open spec fn chunk_line(terms: Seq<(LimbView, nat)>, j: int) -> Line {
    Line {
        slots: seq![
            term_slot(terms, 4 * j),
            term_slot(terms, 4 * j + 1),
            term_slot(terms, 4 * j + 2),
            term_slot(terms, 4 * j + 3),
            Some(free(partial(terms, 4 * j))),
            Some(free(partial(terms, 4 * j + 4))),
        ],
        coeffs: seq![
            term_coeff(terms, 4 * j),
            term_coeff(terms, 4 * j + 1),
            term_coeff(terms, 4 * j + 2),
            term_coeff(terms, 4 * j + 3),
            1,
            (modulus() - 1) as nat,
            0,
            0,
            0,
        ],
    }
}

/// The row that ends a sum of more than three terms, or of none: `l0` holds
/// the result and `d` the total of the terms: `d + c - l0 = 0`.
pub open spec fn collect_line(terms: Seq<(LimbView, nat)>, constant: nat) -> Line {
    Line {
        slots: seq![
            Some(free(sum_value(terms, constant))),
            None,
            None,
            None,
            Some(free(partial(terms, terms.len() as int))),
            None,
        ],
        coeffs: seq![(modulus() - 1) as nat, 0, 0, 0, 1, 0, 0, 0, constant],
    }
}

/// The one row of a sum of one to three terms: they stand in `l0` to `l2`
/// with their weights, `l3` holds the result and `d` holds zero:
/// `l0*c0 + l1*c1 + l2*c2 + c - l3 = 0`.
pub open spec fn single_line(terms: Seq<(LimbView, nat)>, constant: nat) -> Line {
    Line {
        slots: seq![
            term_slot(terms, 0),
            term_slot(terms, 1),
            term_slot(terms, 2),
            Some(free(sum_value(terms, constant))),
            Some(free(0)),
            None,
        ],
        coeffs: seq![
            term_coeff(terms, 0),
            term_coeff(terms, 1),
            term_coeff(terms, 2),
            (modulus() - 1) as nat,
            0,
            0,
            0,
            0,
            constant,
        ],
    }
}

/// Whether a sum of `n` terms fits in one row.
pub open spec fn fits_one_row(n: nat) -> bool {
    1 <= n <= 3
}

/// The number of rows of four terms that `n` terms take.
pub open spec fn chunks(n: nat) -> nat {
    (n + 3) / 4
}

/// The rows of a sum, in the order in which they are assigned.
pub open spec fn sum_lines(terms: Seq<(LimbView, nat)>, constant: nat) -> Seq<Line> {
    if fits_one_row(terms.len()) {
        seq![single_line(terms, constant)]
    } else {
        Seq::new(chunks(terms.len()), |j: int| chunk_line(terms, j)).push(
            collect_line(terms, constant),
        )
    }
}

/// The number of rows that a sum of `n` terms takes.
pub open spec fn sum_rows(n: nat) -> nat {
    if fits_one_row(n) {
        1
    } else {
        chunks(n) + 1
    }
}

/// The slot of its last row in which a sum of `n` terms leaves its result.
pub open spec fn sum_slot(n: nat) -> usize {
    if fits_one_row(n) {
        3
    } else {
        0
    }
}

/// A number plus its residue times the modulus less one is a multiple of the
/// modulus: in the field, a value and its negative cancel.
pub proof fn lemma_cancel(x: nat)
    ensures
        (x + (x % modulus()) * (modulus() - 1)) % (modulus() as int) == 0,
{
    let p = modulus() as int;
    let q = x as int / p;
    let r = x as int % p;
    lemma_fundamental_div_mod(x as int, p);
    assert(x + r * (p - 1) == (q + r) * p) by (nonlinear_arith)
        requires
            x == p * q + r,
    ;
    lemma_mod_multiples_basic(q + r, p);
}

/// One more term adds its value times its weight to the weighted sum.
pub proof fn lemma_weighted_sum_step(terms: Seq<(LimbView, nat)>, i: int)
    requires
        0 <= i < terms.len(),
    ensures
        weighted_sum(terms.take(i + 1)) == weighted_sum(terms.take(i)) + terms[i].0.value
            * terms[i].1,
{
    assert(terms.take(i + 1).drop_last() =~= terms.take(i));
}

/// The weighted sum of all terms is that of the terms taken up to their
/// number.
pub proof fn lemma_weighted_sum_all(terms: Seq<(LimbView, nat)>)
    ensures
        weighted_sum(terms.take(terms.len() as int)) == weighted_sum(terms),
{
    assert(terms.take(terms.len() as int) =~= terms);
}

/// The running total after up to four more terms, in the integers: the
/// total before them plus each of them times its weight.
pub proof fn lemma_weighted_sum_chunk(terms: Seq<(LimbView, nat)>, lo: int)
    requires
        0 <= lo <= terms.len(),
    ensures
        weighted_sum(
            terms.take(
                if lo + 4 < terms.len() {
                    lo + 4
                } else {
                    terms.len() as int
                },
            ),
        ) == weighted_sum(terms.take(lo)) + slot_term(terms, lo) + slot_term(terms, lo + 1)
            + slot_term(terms, lo + 2) + slot_term(terms, lo + 3),
{
    if lo < terms.len() {
        lemma_weighted_sum_step(terms, lo);
    }
    if lo + 1 < terms.len() {
        lemma_weighted_sum_step(terms, lo + 1);
    }
    if lo + 2 < terms.len() {
        lemma_weighted_sum_step(terms, lo + 2);
    }
    if lo + 3 < terms.len() {
        lemma_weighted_sum_step(terms, lo + 3);
    }
}

/// The value of the term `i` times its weight; zero if there is no such
/// term.
pub open spec fn slot_term(terms: Seq<(LimbView, nat)>, i: int) -> nat {
    if 0 <= i < terms.len() {
        terms[i].0.value * terms[i].1
    } else {
        0
    }
}

/// Each row of four terms satisfies the identity.
pub proof fn lemma_chunk_line_wf(terms: Seq<(LimbView, nat)>, j: int)
    requires
        0 <= j,
        4 * j <= terms.len(),
    ensures
        chunk_line(terms, j).wf(),
{
    let line = chunk_line(terms, j);
    let w = witness_values(line.slots);
    let c = line.coeffs;
    let p = modulus();
    let lo = 4 * j;
    let before = weighted_sum(terms.take(lo));
    let s = slot_term(terms, lo) + slot_term(terms, lo + 1) + slot_term(terms, lo + 2) + slot_term(
        terms,
        lo + 3,
    );
    lemma_gate_poly_terms(w, c);
    lemma_weighted_sum_chunk(terms, lo);
    lemma_weighted_sum_all(terms);
    assert(w[0] * c[0] == slot_term(terms, lo)) by (nonlinear_arith)
        requires
            (w[0] == 0 && slot_term(terms, lo) == 0) || slot_term(terms, lo) == w[0] * c[0],
    ;
    assert(w[1] * c[1] == slot_term(terms, lo + 1)) by (nonlinear_arith)
        requires
            (w[1] == 0 && slot_term(terms, lo + 1) == 0) || slot_term(terms, lo + 1) == w[1]
                * c[1],
    ;
    assert(w[2] * c[2] == slot_term(terms, lo + 2)) by (nonlinear_arith)
        requires
            (w[2] == 0 && slot_term(terms, lo + 2) == 0) || slot_term(terms, lo + 2) == w[2]
                * c[2],
    ;
    assert(w[3] * c[3] == slot_term(terms, lo + 3)) by (nonlinear_arith)
        requires
            (w[3] == 0 && slot_term(terms, lo + 3) == 0) || slot_term(terms, lo + 3) == w[3]
                * c[3],
    ;
    let x = s + before % p;
    assert(w[4] == before % p);
    assert(w[5] == (before + s) % p);
    lemma_add_mod_noop_right(s as int, before as int, p as int);
    assert(w[5] == x % p);
    assert(gate_poly(w, c) == x + (x % p) * (p - 1)) by (nonlinear_arith)
        requires
            gate_poly(w, c) == w[0] * c[0] + w[1] * c[1] + w[2] * c[2] + w[3] * c[3] + w[4] * c[4]
                + w[5] * c[5] + w[0] * w[3] * c[6] + w[1] * w[2] * c[7] + c[8],
            w[0] * c[0] + w[1] * c[1] + w[2] * c[2] + w[3] * c[3] == s,
            w[4] == before % p,
            w[5] == x % p,
            x == s + before % p,
            c[4] == 1,
            c[5] == p - 1,
            c[6] == 0,
            c[7] == 0,
            c[8] == 0,
    ;
    lemma_cancel(x);
}

/// The row that ends a sum satisfies the identity.
pub proof fn lemma_collect_line_wf(terms: Seq<(LimbView, nat)>, constant: nat)
    ensures
        collect_line(terms, constant).wf(),
{
    let line = collect_line(terms, constant);
    let w = witness_values(line.slots);
    let c = line.coeffs;
    let p = modulus();
    let total = weighted_sum(terms);
    let x = total % p + constant;
    lemma_gate_poly_terms(w, c);
    lemma_add_mod_noop_right(constant as int, total as int, p as int);
    assert(w[0] == x % p);
    assert(gate_poly(w, c) == x + (x % p) * (p - 1)) by (nonlinear_arith)
        requires
            gate_poly(w, c) == w[0] * c[0] + w[1] * c[1] + w[2] * c[2] + w[3] * c[3] + w[4] * c[4]
                + w[5] * c[5] + w[0] * w[3] * c[6] + w[1] * w[2] * c[7] + c[8],
            w[0] == x % p,
            w[1] == 0,
            w[2] == 0,
            w[3] == 0,
            w[4] == total % p,
            w[5] == 0,
            x == total % p + constant,
            c[0] == p - 1,
            c[4] == 1,
            c[8] == constant,
    ;
    lemma_cancel(x);
}

/// The one row of a short sum satisfies the identity.
pub proof fn lemma_single_line_wf(terms: Seq<(LimbView, nat)>, constant: nat)
    requires
        fits_one_row(terms.len()),
    ensures
        single_line(terms, constant).wf(),
{
    let line = single_line(terms, constant);
    let w = witness_values(line.slots);
    let c = line.coeffs;
    let p = modulus();
    let s = slot_term(terms, 0) + slot_term(terms, 1) + slot_term(terms, 2);
    lemma_gate_poly_terms(w, c);
    lemma_weighted_sum_chunk(terms, 0);
    assert(terms.take(0) =~= Seq::<(LimbView, nat)>::empty());
    assert(weighted_sum(terms.take(0)) == 0);
    lemma_weighted_sum_all(terms);
    assert(weighted_sum(terms) == s);
    assert(w[0] * c[0] == slot_term(terms, 0)) by (nonlinear_arith)
        requires
            (w[0] == 0 && slot_term(terms, 0) == 0) || slot_term(terms, 0) == w[0] * c[0],
    ;
    assert(w[1] * c[1] == slot_term(terms, 1)) by (nonlinear_arith)
        requires
            (w[1] == 0 && slot_term(terms, 1) == 0) || slot_term(terms, 1) == w[1] * c[1],
    ;
    assert(w[2] * c[2] == slot_term(terms, 2)) by (nonlinear_arith)
        requires
            (w[2] == 0 && slot_term(terms, 2) == 0) || slot_term(terms, 2) == w[2] * c[2],
    ;
    let x = s + constant;
    assert(w[3] == x % p);
    assert(gate_poly(w, c) == x + (x % p) * (p - 1)) by (nonlinear_arith)
        requires
            gate_poly(w, c) == w[0] * c[0] + w[1] * c[1] + w[2] * c[2] + w[3] * c[3] + w[4] * c[4]
                + w[5] * c[5] + w[0] * w[3] * c[6] + w[1] * w[2] * c[7] + c[8],
            w[0] * c[0] + w[1] * c[1] + w[2] * c[2] == s,
            w[3] == x % p,
            w[4] == 0,
            w[5] == 0,
            x == s + constant,
            c[3] == p - 1,
            c[6] == 0,
            c[7] == 0,
            c[8] == constant,
    ;
    lemma_cancel(x);
}

/// Every row of a sum satisfies the identity, whatever the terms and the
/// constant are.
pub proof fn lemma_sum_lines_wf(terms: Seq<(LimbView, nat)>, constant: nat)
    ensures
        forall|i: int|
            0 <= i < sum_lines(terms, constant).len() ==> (#[trigger] sum_lines(
                terms,
                constant,
            )[i]).wf(),
{
    let lines = sum_lines(terms, constant);
    assert forall|i: int| 0 <= i < lines.len() implies (#[trigger] lines[i]).wf() by {
        if fits_one_row(terms.len()) {
            lemma_single_line_wf(terms, constant);
        } else if i < chunks(terms.len()) {
            lemma_chunk_line_wf(terms, i);
        } else {
            lemma_collect_line_wf(terms, constant);
        }
    }
}

/// Each row of a sum takes up the total that the row before it left.
pub proof fn lemma_sum_lines_carried(terms: Seq<(LimbView, nat)>, constant: nat)
    ensures
        carried(sum_lines(terms, constant)),
{
    let lines = sum_lines(terms, constant);
    assert forall|i: int| 0 <= i < lines.len() - 1 implies witness_values(
        (#[trigger] lines[i]).slots,
    )[5] == witness_values(lines[i + 1].slots)[4] by {
        assert(lines[i] == chunk_line(terms, i));
        if i + 1 < chunks(terms.len()) {
            assert(lines[i + 1] == chunk_line(terms, i + 1));
        } else {
            assert(lines[i + 1] == collect_line(terms, constant));
        }
    }
}

/// The limb of the term `lo + k`, if there is such a term.
fn term_limb(inputs: &Vec<(&Limb, Fe)>, lo: usize, k: usize) -> (r: Option<Limb>)
    requires
        lo <= inputs@.len(),
    ensures
        (match r {
            Some(limb) => Some(limb@),
            None => None,
        }) == term_slot(terms_of(inputs@), lo + k),
{
    if k < inputs.len() - lo {
        Some(*inputs[lo + k].0)
    } else {
        None
    }
}

/// The weight of the term `lo + k`, if there is such a term.
fn term_weight(inputs: &Vec<(&Limb, Fe)>, lo: usize, k: usize) -> (r: Option<Fe>)
    requires
        lo <= inputs@.len(),
    ensures
        (match r {
            Some(c) => c@,
            None => 0,
        }) == term_coeff(terms_of(inputs@), lo + k),
{
    if k < inputs.len() - lo {
        Some(inputs[lo + k].1)
    } else {
        None
    }
}

/// Adds the terms from `lo` up to `hi` to the running total.
fn extend_sum(acc: Fe, inputs: &Vec<(&Limb, Fe)>, lo: usize, hi: usize) -> (r: Fe)
    requires
        lo <= hi <= inputs@.len(),
        acc@ == weighted_sum(terms_of(inputs@).take(lo as int)) % modulus(),
    ensures
        r@ == weighted_sum(terms_of(inputs@).take(hi as int)) % modulus(),
{
    let ghost terms = terms_of(inputs@);
    let mut acc = acc;
    let mut i = lo;
    while i < hi
        invariant
            lo <= i <= hi <= inputs@.len(),
            terms == terms_of(inputs@),
            acc@ == weighted_sum(terms.take(i as int)) % modulus(),
        decreases hi - i,
    {
        let value = inputs[i].0.value();
        let weight = inputs[i].1;
        let term = value.mul(&weight);
        proof {
            lemma_weighted_sum_step(terms, i as int);
            lemma_add_mod_noop(
                weighted_sum(terms.take(i as int)) as int,
                (value@ * weight@) as int,
                modulus() as int,
            );
            use_type_invariant(&acc);
            use_type_invariant(&term);
        }
        acc = acc.add(&term);
        i = i + 1;
    }
    acc
}

/// The rows of four terms of a sum, in the order in which they are assigned.
pub open spec fn chunk_lines(terms: Seq<(LimbView, nat)>) -> Seq<Line> {
    Seq::new(chunks(terms.len()), |j: int| chunk_line(terms, j))
}

impl CommonGateConfig {
    /// A sum of one to three terms, in one row.
    fn sum_in_one_row<LC: LookupAssistChip>(
        &self,
        region: &mut Region,
        lookup_assist_chip: &mut LookupAssist<LC>,
        offset: &mut usize,
        inputs: &Vec<(&Limb, Fe)>,
        constant: Option<Fe>,
    ) -> (r: Result<Limb, Error>)
        requires
            old(region)@.wf(),
            old(region)@.free_at(*old(offset) as nat),
            *old(offset) < usize::MAX,
            fits_one_row(inputs@.len()),
        ensures
            final(region)@.wf(),
            final(lookup_assist_chip).asked() == old(lookup_assist_chip).asked(),
            final(region)@ == with_line(
                old(region)@,
                *old(offset) as nat,
                single_line(terms_of(inputs@), constant_value(constant)).slots,
                single_line(terms_of(inputs@), constant_value(constant)).coeffs,
                true,
                0,
            ),
            *final(offset) == *old(offset) + 1,
            r matches Ok(limb),
            r matches Ok(limb) ==> limb@ == (LimbView {
                cell: Some(
                    Cell {
                        region: old(region)@.index,
                        row: old(region)@.rows.len() as usize,
                        slot: 3,
                    },
                ),
                value: sum_value(terms_of(inputs@), constant_value(constant)),
            }),
    {
        let ghost terms = terms_of(inputs@);
        let ghost cv = constant_value(constant);
        let n = inputs.len();
        let zero = Fe::zero();
        let minus_one = Fe::one().neg();
        let cst = match constant {
            Some(c) => c,
            None => zero,
        };
        proof {
            assert(terms.take(0) =~= Seq::<(LimbView, nat)>::empty());
            lemma_weighted_sum_all(terms);
            lemma_single_line_wf(terms, cv);
        }
        let sum = extend_sum(zero, inputs, 0, n);
        let result = sum.add(&cst);
        let values = [
            term_limb(inputs, 0, 0),
            term_limb(inputs, 0, 1),
            term_limb(inputs, 0, 2),
            Some(Limb::new(None, result)),
            Some(Limb::new(None, zero)),
            None,
        ];
        let coeffs = [
            term_weight(inputs, 0, 0),
            term_weight(inputs, 0, 1),
            term_weight(inputs, 0, 2),
            Some(minus_one),
            None,
            None,
            None,
            None,
            constant,
        ];
        proof {
            lemma_add_mod_noop_right(cv as int, weighted_sum(terms) as int, modulus() as int);
            assert(limb_views(values@) =~= single_line(terms, cv).slots);
            assert(coeff_values(coeffs@) =~= single_line(terms, cv).coeffs);
        }
        match self.assign_line(region, lookup_assist_chip, offset, values, coeffs, 0) {
            Ok(limbs) => {
                proof {
                    reveal_with_fuel(anchored, 7);
                    assert(views(limbs@).len() == n + 2);
                    assert(views(limbs@)[n as int] == limbs@[n as int]@);
                }
                Ok(limbs[n])
            },
            Err(e) => Err(e),
        }
    }

    /// The rows of four terms of a sum; what comes back is the total of
    /// the terms.
    fn sum_in_chunks<LC: LookupAssistChip>(
        &self,
        region: &mut Region,
        lookup_assist_chip: &mut LookupAssist<LC>,
        offset: &mut usize,
        inputs: &Vec<(&Limb, Fe)>,
    ) -> (r: Result<Fe, Error>)
        requires
            old(region)@.wf(),
            old(region)@.free_at(*old(offset) as nat),
            *old(offset) + chunks(inputs@.len()) < usize::MAX,
        ensures
            final(region)@.wf(),
            final(lookup_assist_chip).asked() == old(lookup_assist_chip).asked(),
            final(region)@.free_at(*final(offset) as nat),
            final(region)@ == with_lines(
                old(region)@,
                *old(offset) as nat,
                chunk_lines(terms_of(inputs@)),
            ),
            final(region)@.rows.len() == old(region)@.rows.len() + chunks(inputs@.len()),
            final(region)@.index == old(region)@.index,
            *final(offset) == *old(offset) + chunks(inputs@.len()),
            r matches Ok(total),
            r matches Ok(total) ==> total@ == weighted_sum(terms_of(inputs@)) % modulus(),
    {
        let ghost terms = terms_of(inputs@);
        let ghost lines = chunk_lines(terms);
        let ghost before = region@;
        let ghost start = *offset;
        let n = inputs.len();
        let one = Fe::one();
        let minus_one = one.neg();
        let mut acc = Fe::zero();
        let mut lo: usize = 0;
        let mut j: usize = 0;
        proof {
            assert(terms.take(0) =~= Seq::<(LimbView, nat)>::empty());
            lemma_weighted_sum_all(terms);
            assert(lines.take(0) =~= Seq::<Line>::empty());
            assert forall|i: int| 0 <= i < lines.len() implies (#[trigger] lines[i]).wf() by {
                lemma_chunk_line_wf(terms, i);
            }
        }
        while lo < n
            invariant
                n == inputs@.len(),
                terms == terms_of(inputs@),
                lines == chunk_lines(terms),
                start + lines.len() < usize::MAX,
                before.wf(),
                before.free_at(start as nat),
                forall|i: int| 0 <= i < lines.len() ==> (#[trigger] lines[i]).wf(),
                j <= chunks(n as nat),
                lo <= n,
                lo < n ==> lo == 4 * j,
                lo == n ==> j == chunks(n as nat),
                acc@ == partial(terms, 4 * j),
                one@ == 1,
                minus_one@ == modulus() - 1,
                *offset == start + j,
                region@ == with_lines(before, start as nat, lines.take(j as int)),
                lookup_assist_chip.asked() == old(lookup_assist_chip).asked(),
            decreases n - lo,
        {
            let hi = if n - lo >= 4 {
                lo + 4
            } else {
                n
            };
            proof {
                lemma_weighted_sum_all(terms);
            }
            let result = extend_sum(acc, inputs, lo, hi);
            let values = [
                term_limb(inputs, lo, 0),
                term_limb(inputs, lo, 1),
                term_limb(inputs, lo, 2),
                term_limb(inputs, lo, 3),
                Some(Limb::new(None, acc)),
                Some(Limb::new(None, result)),
            ];
            let coeffs = [
                term_weight(inputs, lo, 0),
                term_weight(inputs, lo, 1),
                term_weight(inputs, lo, 2),
                term_weight(inputs, lo, 3),
                Some(one),
                Some(minus_one),
                None,
                None,
                None,
            ];
            proof {
                let head = lines.take(j as int);
                assert forall|i: int| 0 <= i < head.len() implies (#[trigger] head[i]).wf() by {
                    assert(head[i] == lines[i]);
                }
                lemma_with_lines_wf(before, start as nat, head);
                assert(lines[j as int] == chunk_line(terms, j as int));
                assert(lines[j as int].wf());
                assert(limb_views(values@) =~= chunk_line(terms, j as int).slots);
                assert(coeff_values(coeffs@) =~= chunk_line(terms, j as int).coeffs);
                assert(lines.take(j + 1).drop_last() =~= head);
                assert(lines.take(j + 1).last() == lines[j as int]);
            }
            match self.assign_line(region, lookup_assist_chip, offset, values, coeffs, 0) {
                Ok(_) => {},
                Err(e) => {
                    return Err(e);
                },
            }
            acc = result;
            lo = hi;
            j = j + 1;
        }
        proof {
            assert(lines.take(j as int) =~= lines);
            lemma_with_lines_wf(before, start as nat, lines);
        }
        Ok(acc)
    }

    /// The row that ends a sum: the constant is added to the total of the
    /// terms.
    fn sum_collect<LC: LookupAssistChip>(
        &self,
        region: &mut Region,
        lookup_assist_chip: &mut LookupAssist<LC>,
        offset: &mut usize,
        total: Fe,
        constant: Option<Fe>,
        Ghost(terms): Ghost<Seq<(LimbView, nat)>>,
    ) -> (r: Result<Limb, Error>)
        requires
            old(region)@.wf(),
            old(region)@.free_at(*old(offset) as nat),
            *old(offset) < usize::MAX,
            total@ == weighted_sum(terms) % modulus(),
        ensures
            final(region)@.wf(),
            final(lookup_assist_chip).asked() == old(lookup_assist_chip).asked(),
            final(region)@ == with_line(
                old(region)@,
                *old(offset) as nat,
                collect_line(terms, constant_value(constant)).slots,
                collect_line(terms, constant_value(constant)).coeffs,
                true,
                0,
            ),
            *final(offset) == *old(offset) + 1,
            r matches Ok(limb),
            r matches Ok(limb) ==> limb@ == (LimbView {
                cell: Some(
                    Cell {
                        region: old(region)@.index,
                        row: old(region)@.rows.len() as usize,
                        slot: 0,
                    },
                ),
                value: sum_value(terms, constant_value(constant)),
            }),
    {
        let ghost cv = constant_value(constant);
        let one = Fe::one();
        let minus_one = one.neg();
        let cst = match constant {
            Some(c) => c,
            None => Fe::zero(),
        };
        let result = total.add(&cst);
        let values = [
            Some(Limb::new(None, result)),
            None,
            None,
            None,
            Some(Limb::new(None, total)),
            None,
        ];
        let coeffs = [Some(minus_one), None, None, None, Some(one), None, None, None, constant];
        proof {
            lemma_collect_line_wf(terms, cv);
            lemma_add_mod_noop_right(cv as int, weighted_sum(terms) as int, modulus() as int);
            assert(limb_views(values@) =~= collect_line(terms, cv).slots);
            assert(coeff_values(coeffs@) =~= collect_line(terms, cv).coeffs);
        }
        match self.assign_line(region, lookup_assist_chip, offset, values, coeffs, 0) {
            Ok(limbs) => {
                proof {
                    reveal_with_fuel(anchored, 7);
                    assert(views(limbs@).len() == 2);
                    assert(views(limbs@)[0] == limbs@[0]@);
                }
                Ok(limbs[0])
            },
            Err(e) => Err(e),
        }
    }

    /// The sum of the values of `inputs`, each times its weight, plus
    /// `constant`, in the field.
    ///
    /// The rows of the sum are assigned from `offset` on, one after the
    /// other, and each input that was anchored before is tied to its cell.
    /// The constant enters once, in the last row, and the limb that comes
    /// back is anchored there. Every row satisfies the identity, so that the
    /// sum is refused only where `offset` is taken.
    pub fn sum_with_constant<LC: LookupAssistChip>(
        &self,
        region: &mut Region,
        lookup_assist_chip: &mut LookupAssist<LC>,
        offset: &mut usize,
        inputs: Vec<(&Limb, Fe)>,
        constant: Option<Fe>,
    ) -> (r: Result<Limb, Error>)
        requires
            old(region)@.wf(),
            *old(offset) + sum_rows(inputs@.len()) <= usize::MAX,
        ensures
            final(region)@.wf(),
            final(lookup_assist_chip).asked() == old(lookup_assist_chip).asked(),
            if !old(region)@.free_at(*old(offset) as nat) {
                &&& r == Err::<Limb, Error>(Error::CellOccupied)
                &&& final(region)@ == old(region)@
                &&& *final(offset) == *old(offset)
            } else {
                &&& final(region)@ == with_lines(
                    old(region)@,
                    *old(offset) as nat,
                    sum_lines(terms_of(inputs@), constant_value(constant)),
                )
                &&& *final(offset) == *old(offset) + sum_rows(inputs@.len())
                &&& r matches Ok(limb)
                &&& limb@ == (LimbView {
                    cell: Some(
                        Cell {
                            region: old(region)@.index,
                            row: (old(region)@.rows.len() + sum_rows(inputs@.len()) - 1) as usize,
                            slot: sum_slot(inputs@.len()),
                        },
                    ),
                    value: sum_value(terms_of(inputs@), constant_value(constant)),
                })
            },
    {
        let ghost terms = terms_of(inputs@);
        let ghost cv = constant_value(constant);
        let ghost lines = sum_lines(terms, cv);
        if !region.free_at(*offset) {
            return Err(Error::CellOccupied);
        }
        let n = inputs.len();
        if 1 <= n && n <= 3 {
            proof {
                assert(lines.drop_last() =~= Seq::<Line>::empty());
                reveal_with_fuel(with_lines, 2);
            }
            self.sum_in_one_row(region, lookup_assist_chip, offset, &inputs, constant)
        } else {
            proof {
                assert(lines.drop_last() =~= chunk_lines(terms));
            }
            match self.sum_in_chunks(region, lookup_assist_chip, offset, &inputs) {
                Ok(total) => self.sum_collect(
                    region,
                    lookup_assist_chip,
                    offset,
                    total,
                    constant,
                    Ghost(terms),
                ),
                Err(e) => Err(e),
            }
        }
    }
}

} // verus!
