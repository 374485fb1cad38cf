//! The bits of a value, most significant first, in rows that rebuild the
//! value four bits at a time.
//!
//! Each row takes the number rebuilt so far in `d`, four more bits in `l0`
//! to `l3`, and leaves `16*d + 8*l0 + 4*l1 + 2*l2 + l3` in `d_next`. A last
//! row binds what was rebuilt to the value itself. The rows do not force
//! the bits to be zero or one.

use crate::assign::{coeff_values, LookupAssist, LookupAssistChip};
use crate::bits::{bit_at, bit_of, lemma_bit_of_truncated};
use crate::config::CommonGateConfig;
use crate::field::{modulus, Fe};
use crate::gate::{add_shadow, gate_poly, identity_holds, lemma_gate_poly_terms, mul_shadow};
use crate::region::{
    anchored, carried, free, lemma_with_lines_wf, limb_views, views, with_lines,
    witness_values, Cell, Error, Limb, LimbView, Line, Region,
};
use vstd::arithmetic::div_mod::{
    lemma_basic_div, lemma_div_denominator, lemma_div_nonincreasing, lemma_fundamental_div_mod,
    lemma_mod_bound, lemma_mod_decreases, lemma_mod_multiples_basic, lemma_small_mod,
};
use vstd::arithmetic::power2::{lemma2_to64, lemma_pow2_adds, lemma_pow2_pos, pow2};
use vstd::prelude::*;

verus! {

/// The `i`-th bit, most significant first, of the `n` low bits of `v`.
pub open spec fn be_bit(v: nat, n: nat, i: int) -> nat {
    bit_of(v, (n - 1 - i) as nat)
}

/// The number that the first `k` of the `n` low bits of `v` stand for, most
/// significant first.
pub open spec fn prefix(v: nat, n: nat, k: nat) -> nat {
    (v % pow2(n)) / pow2((n - k) as nat)
}

/// No bits stand for zero.
pub proof fn lemma_prefix_none(v: nat, n: nat)
    ensures
        prefix(v, n, 0) == 0,
{
    lemma_pow2_pos(n);
    lemma_mod_bound(v as int, pow2(n) as int);
    lemma_basic_div((v % pow2(n)) as int, pow2(n) as int);
}

/// All `n` bits stand for `v` reduced by `2^n`.
pub proof fn lemma_prefix_all(v: nat, n: nat)
    ensures
        prefix(v, n, n) == v % pow2(n),
{
    lemma2_to64();
    assert((n - n) as nat == 0);
    assert(pow2(0) == 1);
}

/// The bits of `v` never stand for more than `v`.
pub proof fn lemma_prefix_le(v: nat, n: nat, k: nat)
    requires
        k <= n,
    ensures
        prefix(v, n, k) <= v,
{
    lemma_pow2_pos(n);
    lemma_pow2_pos((n - k) as nat);
    lemma_mod_decreases(v, pow2(n));
    lemma_div_nonincreasing((v % pow2(n)) as int, pow2((n - k) as nat) as int);
}

/// One more bit doubles what the bits stand for and adds the bit.
pub proof fn lemma_prefix_step(v: nat, n: nat, k: nat)
    requires
        k < n,
    ensures
        prefix(v, n, k + 1) == 2 * prefix(v, n, k) + be_bit(v, n, k as int),
{
    let u = v % pow2(n);
    let m = (n - k - 1) as nat;
    lemma2_to64();
    lemma_pow2_pos(n);
    lemma_pow2_pos(m);
    lemma_pow2_adds(m, 1);
    lemma_mod_bound(v as int, pow2(n) as int);
    assert((n - k) as nat == m + 1);
    assert(0 <= u as int);
    assert(0 < pow2(m) as int);
    lemma_div_denominator(u as int, pow2(m) as int, 2);
    assert(prefix(v, n, k) == (u / pow2(m)) / 2);
    lemma_fundamental_div_mod((u / pow2(m)) as int, 2);
    lemma_bit_of_truncated(v, n, m);
}

/// Four more bits multiply what the bits stand for by sixteen and add the
/// four bits, weighted by eight, four, two and one.
pub proof fn lemma_prefix_nibble(v: nat, n: nat, j: int)
    requires
        0 <= j,
        4 * j + 4 <= n,
    ensures
        prefix(v, n, (4 * j + 4) as nat) == 16 * prefix(v, n, (4 * j) as nat) + 8 * be_bit(
            v,
            n,
            4 * j,
        ) + 4 * be_bit(v, n, 4 * j + 1) + 2 * be_bit(v, n, 4 * j + 2) + be_bit(v, n, 4 * j + 3),
{
    lemma_prefix_step(v, n, (4 * j) as nat);
    lemma_prefix_step(v, n, (4 * j + 1) as nat);
    lemma_prefix_step(v, n, (4 * j + 2) as nat);
    lemma_prefix_step(v, n, (4 * j + 3) as nat);
}

/// The row of the bits `4j` to `4j + 3`.
pub open spec fn nibble_line(v: nat, n: nat, j: int) -> Line {
    Line {
        slots: seq![
            Some(free(be_bit(v, n, 4 * j))),
            Some(free(be_bit(v, n, 4 * j + 1))),
            Some(free(be_bit(v, n, 4 * j + 2))),
            Some(free(be_bit(v, n, 4 * j + 3))),
            Some(free(prefix(v, n, (4 * j) as nat))),
            Some(free(prefix(v, n, (4 * j + 4) as nat))),
        ],
        coeffs: seq![8, 4, 2, 1, 16, (modulus() - 1) as nat, 0, 0, 0],
    }
}

/// The rows of the bits of the `n` low bits of `v`, four bits to a row.
pub open spec fn nibble_lines(v: nat, n: nat) -> Seq<Line> {
    Seq::new(n / 4, |j: int| nibble_line(v, n, j))
}

/// The row that binds the number rebuilt from `n` bits to the limb that was
/// decomposed: `l0 - d = 0`.
pub open spec fn binding_line(limb: LimbView, n: nat) -> Line {
    Line {
        slots: seq![Some(limb), None, None, None, Some(free(limb.value % pow2(n))), None],
        coeffs: seq![1, 0, 0, 0, (modulus() - 1) as nat, 0, 0, 0, 0],
    }
}

/// The limbs of the bits: the `i`-th is anchored in the row of its four
/// bits, in the slot of its place among them.
pub open spec fn bit_limbs(region: usize, first_row: usize, v: nat, n: nat) -> Seq<LimbView> {
    Seq::new(
        n,
        |i: int|
            LimbView {
                cell: Some(
                    Cell { region, row: (first_row + i / 4) as usize, slot: (i % 4) as usize },
                ),
                value: be_bit(v, n, i),
            },
    )
}

/// The row of four bits satisfies the identity.
pub proof fn lemma_nibble_line_wf(v: nat, n: nat, j: int)
    requires
        0 <= j,
        4 * j + 4 <= n,
    ensures
        nibble_line(v, n, j).wf(),
{
    let line = nibble_line(v, n, j);
    let w = witness_values(line.slots);
    let c = line.coeffs;
    let p = modulus();
    lemma_gate_poly_terms(w, c);
    lemma_prefix_nibble(v, n, j);
    assert(gate_poly(w, c) == w[5] * p) by (nonlinear_arith)
        requires
            gate_poly(w, c) == w[0] * c[0] + w[1] * c[1] + w[2] * c[2] + w[3] * c[3] + w[4] * c[4]
                + w[5] * c[5] + w[0] * w[3] * c[6] + w[1] * w[2] * c[7] + c[8],
            w[5] == 16 * w[4] + 8 * w[0] + 4 * w[1] + 2 * w[2] + w[3],
            c[0] == 8,
            c[1] == 4,
            c[2] == 2,
            c[3] == 1,
            c[4] == 16,
            c[5] == p - 1,
            c[6] == 0,
            c[7] == 0,
            c[8] == 0,
    ;
    lemma_mod_multiples_basic(w[5] as int, p as int);
}

/// The binding row satisfies the identity exactly when the value fits in
/// `n` bits.
pub proof fn lemma_binding_line(limb: LimbView, n: nat)
    requires
        limb.value < modulus(),
    ensures
        binding_line(limb, n).slots.len() == 6,
        binding_line(limb, n).coeffs.len() == 9,
        identity_holds(
            witness_values(binding_line(limb, n).slots),
            binding_line(limb, n).coeffs,
        ) <==> limb.value < pow2(n),
{
    let line = binding_line(limb, n);
    let w = witness_values(line.slots);
    let c = line.coeffs;
    let p = modulus();
    let v = limb.value;
    let u = v % pow2(n);
    lemma_gate_poly_terms(w, c);
    lemma_pow2_pos(n);
    lemma_mod_decreases(v, pow2(n));
    lemma_mod_bound(v as int, pow2(n) as int);
    assert(gate_poly(w, c) == (v - u) + u * p) by (nonlinear_arith)
        requires
            gate_poly(w, c) == w[0] * c[0] + w[1] * c[1] + w[2] * c[2] + w[3] * c[3] + w[4] * c[4]
                + w[5] * c[5] + w[0] * w[3] * c[6] + w[1] * w[2] * c[7] + c[8],
            w[0] == v,
            w[1] == 0,
            w[2] == 0,
            w[3] == 0,
            w[4] == u,
            w[5] == 0,
            c[0] == 1,
            c[4] == p - 1,
            c[8] == 0,
    ;
    vstd::arithmetic::div_mod::lemma_mod_multiples_vanish(u as int, (v - u) as int, p as int);
    assert(u * p == p * u) by (nonlinear_arith);
    lemma_small_mod((v - u) as nat, p);
    if v < pow2(n) {
        lemma_small_mod(v, pow2(n));
    }
}

/// Each row of a decomposition takes up the number that the row before it
/// rebuilt, and the binding row takes up what the last of them rebuilt.
pub proof fn lemma_decomposition_carried(limb: LimbView, n: nat)
    requires
        n % 4 == 0,
    ensures
        carried(nibble_lines(limb.value, n).push(binding_line(limb, n))),
{
    let v = limb.value;
    let lines = nibble_lines(v, n).push(binding_line(limb, n));
    lemma_prefix_all(v, n);
    assert forall|i: int| 0 <= i < lines.len() - 1 implies witness_values(
        (#[trigger] lines[i]).slots,
    )[5] == witness_values(lines[i + 1].slots)[4] by {
        assert(lines[i] == nibble_line(v, n, i));
        if i + 1 < n / 4 {
            assert(lines[i + 1] == nibble_line(v, n, i + 1));
        } else {
            assert(lines[i + 1] == binding_line(limb, n));
            assert(4 * i + 4 == n);
        }
    }
}

/// The bit of `value` with the weight `2^k`, as a field element.
fn bit_fe(value: &Fe, k: usize) -> (r: Fe)
    ensures
        r@ == bit_of(value@, k as nat),
{
    if bit_at(value, k) {
        Fe::one()
    } else {
        Fe::zero()
    }
}

/// `16*acc + 8*b0 + 4*b1 + 2*b2 + b3` in the field.
fn rebuild(acc: &Fe, b0: &Fe, b1: &Fe, b2: &Fe, b3: &Fe) -> (r: Fe)
    ensures
        r@ == (16 * acc@ + 8 * b0@ + 4 * b1@ + 2 * b2@ + b3@) % modulus(),
{
    proof {
        use_type_invariant(acc);
        use_type_invariant(b0);
        use_type_invariant(b1);
        use_type_invariant(b2);
        use_type_invariant(b3);
    }
    let c16 = Fe::from_u64(16);
    let c8 = Fe::from_u64(8);
    let c4 = Fe::from_u64(4);
    let c2 = Fe::from_u64(2);
    let c1 = Fe::from_u64(1);
    let t = mul_shadow(acc, &c16, Ghost(acc@), Ghost(16));
    let t0 = mul_shadow(b0, &c8, Ghost(b0@), Ghost(8));
    let t1 = mul_shadow(b1, &c4, Ghost(b1@), Ghost(4));
    let t2 = mul_shadow(b2, &c2, Ghost(b2@), Ghost(2));
    let t3 = mul_shadow(b3, &c1, Ghost(b3@), Ghost(1));
    let s0 = add_shadow(&t, &t0, Ghost(acc@ * 16), Ghost(b0@ * 8));
    let s1 = add_shadow(&s0, &t1, Ghost(acc@ * 16 + b0@ * 8), Ghost(b1@ * 4));
    let s2 = add_shadow(&s1, &t2, Ghost(acc@ * 16 + b0@ * 8 + b1@ * 4), Ghost(b2@ * 2));
    add_shadow(&s2, &t3, Ghost(acc@ * 16 + b0@ * 8 + b1@ * 4 + b2@ * 2), Ghost(b3@ * 1))
}

impl CommonGateConfig {
    /// The rows of the bits, four to a row; what comes back is the number
    /// that was rebuilt from them.
    fn decompose_groups<LC: LookupAssistChip>(
        &self,
        region: &mut Region,
        lookup_assist_chip: &mut LookupAssist<LC>,
        offset: &mut usize,
        value: &Fe,
        limbs: &mut Vec<Limb>,
        limbsize: usize,
    ) -> (r: Result<Fe, Error>)
        requires
            old(region)@.wf(),
            old(region)@.free_at(*old(offset) as nat),
            limbsize % 4 == 0,
            *old(offset) + limbsize / 4 < usize::MAX,
        ensures
            final(region)@.wf(),
            final(lookup_assist_chip).asked() == old(lookup_assist_chip).asked(),
            final(region)@.free_at(*final(offset) as nat),
            final(region)@ == with_lines(
                old(region)@,
                *old(offset) as nat,
                nibble_lines(value@, limbsize as nat),
            ),
            *final(offset) == *old(offset) + limbsize / 4,
            views(final(limbs)@) == views(old(limbs)@) + bit_limbs(
                old(region)@.index,
                old(region)@.rows.len() as usize,
                value@,
                limbsize as nat,
            ),
            r matches Ok(rebuilt),
            r matches Ok(rebuilt) ==> rebuilt@ == value@ % pow2(limbsize as nat),
    {
        let ghost v = value@;
        let ghost n = limbsize as nat;
        let ghost lines = nibble_lines(v, n);
        let ghost before = region@;
        let ghost start = *offset;
        let first_row = region.len();
        let ghost given = views(limbs@);
        let ghost bits = bit_limbs(before.index, first_row, v, n);
        let groups = limbsize / 4;
        let minus_one = Fe::one().neg();
        let c16 = Fe::from_u64(16);
        let c8 = Fe::from_u64(8);
        let c4 = Fe::from_u64(4);
        let c2 = Fe::from_u64(2);
        let c1 = Fe::from_u64(1);
        let mut acc = Fe::zero();
        let mut j: usize = 0;
        proof {
            use_type_invariant(value);
            lemma_prefix_none(v, n);
            assert(lines.take(0) =~= Seq::<Line>::empty());
            assert(given + bits.take(0) =~= given);
            assert forall|i: int| 0 <= i < lines.len() implies (#[trigger] lines[i]).wf() by {
                lemma_nibble_line_wf(v, n, i);
            }
        }
        while j < groups
            invariant
                v == value@,
                v < modulus(),
                n == limbsize,
                limbsize % 4 == 0,
                groups == limbsize / 4,
                lines == nibble_lines(v, n),
                bits == bit_limbs(before.index, first_row, v, n),
                first_row == before.rows.len(),
                start + groups < usize::MAX,
                before.wf(),
                before.free_at(start as nat),
                forall|i: int| 0 <= i < lines.len() ==> (#[trigger] lines[i]).wf(),
                j <= groups,
                acc@ == prefix(v, n, (4 * j) as nat),
                minus_one@ == modulus() - 1,
                c16@ == 16,
                c8@ == 8,
                c4@ == 4,
                c2@ == 2,
                c1@ == 1,
                *offset == start + j,
                region@ == with_lines(before, start as nat, lines.take(j as int)),
                lookup_assist_chip.asked() == old(lookup_assist_chip).asked(),
                views(limbs@) == given + bits.take(4 * j),
            decreases groups - j,
        {
            let base = limbsize - 4 * j;
            let l0 = bit_fe(value, base - 1);
            let l1 = bit_fe(value, base - 2);
            let l2 = bit_fe(value, base - 3);
            let l3 = bit_fe(value, base - 4);
            let next = rebuild(&acc, &l0, &l1, &l2, &l3);
            let values = [
                Some(Limb::new(None, l0)),
                Some(Limb::new(None, l1)),
                Some(Limb::new(None, l2)),
                Some(Limb::new(None, l3)),
                Some(Limb::new(None, acc)),
                Some(Limb::new(None, next)),
            ];
            let coeffs = [
                Some(c8),
                Some(c4),
                Some(c2),
                Some(c1),
                Some(c16),
                Some(minus_one),
                None,
                None,
                None,
            ];
            let row = region.len();
            proof {
                let head = lines.take(j as int);
                assert forall|i: int| 0 <= i < head.len() implies (#[trigger] head[i]).wf() by {
                    assert(head[i] == lines[i]);
                }
                lemma_with_lines_wf(before, start as nat, head);
                lemma_prefix_nibble(v, n, j as int);
                lemma_prefix_le(v, n, (4 * j + 4) as nat);
                assert(next@ == prefix(v, n, (4 * j + 4) as nat));
                assert(lines[j as int] == nibble_line(v, n, j as int));
                assert(lines[j as int].wf());
                assert(limb_views(values@) =~= nibble_line(v, n, j as int).slots);
                assert(coeff_values(coeffs@) =~= nibble_line(v, n, j as int).coeffs);
                assert(lines.take(j + 1).drop_last() =~= head);
                assert(lines.take(j + 1).last() == lines[j as int]);
                assert(row == first_row + j);
            }
            match self.assign_line(region, lookup_assist_chip, offset, values, coeffs, 0) {
                Ok(anchors) => {
                    proof {
                        reveal_with_fuel(anchored, 7);
                        assert(views(anchors@).len() == 6);
                        assert(views(anchors@)[0] == anchors@[0]@);
                        assert(views(anchors@)[1] == anchors@[1]@);
                        assert(views(anchors@)[2] == anchors@[2]@);
                        assert(views(anchors@)[3] == anchors@[3]@);
                    }
                    let ghost sofar = limbs@;
                    limbs.push(anchors[0]);
                    limbs.push(anchors[1]);
                    limbs.push(anchors[2]);
                    limbs.push(anchors[3]);
                    proof {
                        assert(limbs@ =~= sofar.push(anchors@[0]).push(anchors@[1]).push(
                            anchors@[2],
                        ).push(anchors@[3]));
                        assert(4 * j + 4 <= n);
                        assert((4 * j) / 4 == j && (4 * j + 1) / 4 == j);
                        assert((4 * j + 2) / 4 == j && (4 * j + 3) / 4 == j);
                        assert(anchors@[0]@ == bits[4 * j]);
                        assert(anchors@[1]@ == bits[4 * j + 1]);
                        assert(anchors@[2]@ == bits[4 * j + 2]);
                        assert(anchors@[3]@ == bits[4 * j + 3]);
                        let target = given + bits.take(4 * j + 4);
                        assert(views(sofar) == given + bits.take(4 * j));
                        assert(bits.len() == n);
                        assert(bits.take(4 * j).len() == 4 * j);
                        assert(bits.take(4 * j + 4).len() == 4 * j + 4);
                        assert(views(sofar).len() == sofar.len());
                        assert(sofar.len() == given.len() + 4 * j);
                        assert(limbs@.len() == sofar.len() + 4);
                        assert(views(limbs@).len() == target.len());
                        assert forall|k: int| 0 <= k < target.len() implies views(limbs@)[k]
                            == target[k] by {
                            if k < sofar.len() {
                                assert(views(limbs@)[k] == views(sofar)[k]);
                                assert(views(sofar)[k] == (given + bits.take(4 * j))[k]);
                            }
                        }
                        assert(views(limbs@) =~= target);
                    }
                },
                Err(e) => {
                    return Err(e);
                },
            }
            acc = next;
            j = j + 1;
        }
        proof {
            assert(lines.take(j as int) =~= lines);
            assert(bits.take(4 * j) =~= bits);
            lemma_with_lines_wf(before, start as nat, lines);
            lemma_prefix_all(v, n);
        }
        Ok(acc)
    }

    /// Decomposes `limb` into `limbsize` bits, most significant first, and
    /// appends their limbs to `limbs`.
    ///
    /// The bits are those of the value reduced by `2^limbsize`: higher bits
    /// are left out. Four bits go to a row, from `offset` on, and a last row
    /// binds the number rebuilt from the bits to `limb`. That row is refused
    /// where the value does not fit in `limbsize` bits; the rows of the bits
    /// and their limbs are then in place. `limbsize` is a multiple of four.
    pub fn decompose_limb<LC: LookupAssistChip>(
        &self,
        region: &mut Region,
        lookup_assist_chip: &mut LookupAssist<LC>,
        offset: &mut usize,
        limb: &Limb,
        limbs: &mut Vec<Limb>,
        limbsize: usize,
    ) -> (r: Result<(), Error>)
        requires
            old(region)@.wf(),
            *old(offset) + limbsize / 4 + 1 <= usize::MAX,
        ensures
            final(region)@.wf(),
            final(lookup_assist_chip).asked() == old(lookup_assist_chip).asked(),
            if limbsize % 4 != 0 {
                &&& r == Err::<(), Error>(Error::LimbSize)
                &&& final(region)@ == old(region)@
                &&& *final(offset) == *old(offset)
                &&& final(limbs)@ == old(limbs)@
            } else if !old(region)@.free_at(*old(offset) as nat) {
                &&& r == Err::<(), Error>(Error::CellOccupied)
                &&& final(region)@ == old(region)@
                &&& *final(offset) == *old(offset)
                &&& final(limbs)@ == old(limbs)@
            } else {
                &&& views(final(limbs)@) == views(old(limbs)@) + bit_limbs(
                    old(region)@.index,
                    old(region)@.rows.len() as usize,
                    limb@.value,
                    limbsize as nat,
                )
                &&& if limb@.value < pow2(limbsize as nat) {
                    &&& r == Ok::<(), Error>(())
                    &&& final(region)@ == with_lines(
                        old(region)@,
                        *old(offset) as nat,
                        nibble_lines(limb@.value, limbsize as nat).push(
                            binding_line(limb@, limbsize as nat),
                        ),
                    )
                    &&& *final(offset) == *old(offset) + limbsize / 4 + 1
                } else {
                    &&& r == Err::<(), Error>(Error::IdentityViolation)
                    &&& final(region)@ == with_lines(
                        old(region)@,
                        *old(offset) as nat,
                        nibble_lines(limb@.value, limbsize as nat),
                    )
                    &&& *final(offset) == *old(offset) + limbsize / 4
                }
            },
    {
        if limbsize % 4 != 0 {
            return Err(Error::LimbSize);
        }
        if !region.free_at(*offset) {
            return Err(Error::CellOccupied);
        }
        let ghost n = limbsize as nat;
        let ghost lines = nibble_lines(limb@.value, n);
        let value = limb.value();
        let rebuilt = match self.decompose_groups(
            region,
            lookup_assist_chip,
            offset,
            &value,
            limbs,
            limbsize,
        ) {
            Ok(rebuilt) => rebuilt,
            Err(e) => {
                return Err(e);
            },
        };
        let one = Fe::one();
        let minus_one = one.neg();
        let values = [Some(*limb), None, None, None, Some(Limb::new(None, rebuilt)), None];
        let coeffs = [Some(one), None, None, None, Some(minus_one), None, None, None, None];
        proof {
            use_type_invariant(&value);
            lemma_binding_line(limb@, n);
            assert(limb_views(values@) =~= binding_line(limb@, n).slots);
            assert(coeff_values(coeffs@) =~= binding_line(limb@, n).coeffs);
            assert(lines.push(binding_line(limb@, n)).drop_last() =~= lines);
        }
        match self.assign_line(region, lookup_assist_chip, offset, values, coeffs, 0) {
            Ok(_) => Ok(()),
            Err(e) => Err(e),
        }
    }
}

} // verus!
