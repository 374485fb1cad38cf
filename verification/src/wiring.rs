//! What copy constraints mean: cells that are tied hold the same value in
//! every assignment that respects the constraints.

use crate::region::{wired, with_line, Cell, LimbView, RegionView};
use vstd::prelude::*;

verus! {

/// Whether an assignment of values to cells respects the copy constraints:
/// the two cells of each constraint hold the same value.
pub open spec fn respects(copies: Seq<(Cell, Cell)>, values: spec_fn(Cell) -> nat) -> bool {
    forall|k: int| 0 <= k < copies.len() ==> values((#[trigger] copies[k]).0) == values(copies[k].1)
}

/// Whether the copy constraints of a region tie two cells together: the
/// cells hold the same value in every assignment that respects the
/// constraints.
pub open spec fn tied(region: RegionView, a: Cell, b: Cell) -> bool {
    forall|values: spec_fn(Cell) -> nat| #[trigger]
        respects(region.copies, values) ==> values(a) == values(b)
}

/// Whether the copy constraints of `later` begin with those of `earlier`.
pub open spec fn keeps_copies(earlier: RegionView, later: RegionView) -> bool {
    earlier.copies.is_prefix_of(later.copies)
}

/// A slot that holds a limb which was anchored before is tied to the cell
/// of that limb by the copy constraints of its row.
pub proof fn lemma_wired_slot(
    region: usize,
    row: usize,
    slots: Seq<Option<LimbView>>,
    n: nat,
    i: int,
    anchor: Cell,
)
    requires
        0 <= i < n <= slots.len(),
        n <= 6,
        slots[i] is Some,
        slots[i]->0.cell == Some(anchor),
    ensures
        wired(region, row, slots, n).contains((Cell { region, row, slot: i as usize }, anchor)),
    decreases n,
{
    let before = wired(region, row, slots, (n - 1) as nat);
    let pair = (Cell { region, row, slot: i as usize }, anchor);
    if i == n - 1 {
        let all = wired(region, row, slots, n);
        assert(all == before.push(pair));
        assert(all[before.len() as int] == pair);
    } else {
        lemma_wired_slot(region, row, slots, (n - 1) as nat, i, anchor);
        let k = choose|k: int| 0 <= k < before.len() && before[k] == pair;
        let all = wired(region, row, slots, n);
        assert(all[k] == pair);
    }
}

/// A row keeps the copy constraints that its region had.
pub proof fn lemma_line_keeps_copies(
    region: RegionView,
    offset: nat,
    slots: Seq<Option<LimbView>>,
    coeffs: Seq<nat>,
    selector: bool,
    hint: u64,
)
    ensures
        keeps_copies(region, with_line(region, offset, slots, coeffs, selector, hint)),
{
}

/// Two cells that are each in a copy constraint with the same third cell
/// are tied together.
pub proof fn lemma_common_anchor(region: RegionView, a: Cell, b: Cell, anchor: Cell)
    requires
        region.copies.contains((a, anchor)),
        region.copies.contains((b, anchor)),
    ensures
        tied(region, a, b),
{
    let i = choose|i: int| 0 <= i < region.copies.len() && region.copies[i] == (a, anchor);
    let j = choose|j: int| 0 <= j < region.copies.len() && region.copies[j] == (b, anchor);
    assert forall|values: spec_fn(Cell) -> nat| #[trigger]
        respects(region.copies, values) implies values(a) == values(b) by {
        assert(values(region.copies[i].0) == values(region.copies[i].1));
        assert(values(region.copies[j].0) == values(region.copies[j].1));
    }
}

/// A limb that was anchored before and is passed into two rows ties the
/// two cells that it is assigned to: whatever one of them holds, the other
/// holds too.
///
/// The first row is assigned in the region `first`, in its slot `i`; the
/// second in the region `second`, which has grown from what the first row
/// left, in its slot `j`.
pub proof fn lemma_copy_propagation(
    limb: LimbView,
    anchor: Cell,
    first: RegionView,
    first_offset: nat,
    first_slots: Seq<Option<LimbView>>,
    first_coeffs: Seq<nat>,
    first_selector: bool,
    first_hint: u64,
    i: int,
    second: RegionView,
    second_offset: nat,
    second_slots: Seq<Option<LimbView>>,
    second_coeffs: Seq<nat>,
    second_selector: bool,
    second_hint: u64,
    j: int,
)
    requires
        limb.cell == Some(anchor),
        first_slots.len() <= 6,
        0 <= i < first_slots.len(),
        first_slots[i] == Some(limb),
        second_slots.len() <= 6,
        0 <= j < second_slots.len(),
        second_slots[j] == Some(limb),
        keeps_copies(
            with_line(
                first,
                first_offset,
                first_slots,
                first_coeffs,
                first_selector,
                first_hint,
            ),
            second,
        ),
    ensures
        tied(
            with_line(
                second,
                second_offset,
                second_slots,
                second_coeffs,
                second_selector,
                second_hint,
            ),
            Cell { region: first.index, row: first.rows.len() as usize, slot: i as usize },
            Cell { region: second.index, row: second.rows.len() as usize, slot: j as usize },
        ),
{
    let after_first = with_line(
        first,
        first_offset,
        first_slots,
        first_coeffs,
        first_selector,
        first_hint,
    );
    let after_second = with_line(
        second,
        second_offset,
        second_slots,
        second_coeffs,
        second_selector,
        second_hint,
    );
    let a = Cell { region: first.index, row: first.rows.len() as usize, slot: i as usize };
    let b = Cell { region: second.index, row: second.rows.len() as usize, slot: j as usize };
    let first_wires = wired(first.index, first.rows.len() as usize, first_slots, first_slots.len());
    let second_wires = wired(
        second.index,
        second.rows.len() as usize,
        second_slots,
        second_slots.len(),
    );
    lemma_wired_slot(
        first.index,
        first.rows.len() as usize,
        first_slots,
        first_slots.len(),
        i,
        anchor,
    );
    lemma_wired_slot(
        second.index,
        second.rows.len() as usize,
        second_slots,
        second_slots.len(),
        j,
        anchor,
    );
    let k = choose|k: int| 0 <= k < first_wires.len() && first_wires[k] == (a, anchor);
    assert(after_first.copies[first.copies.len() + k] == (a, anchor));
    assert(after_second.copies[first.copies.len() + k] == (a, anchor));
    let m = choose|m: int| 0 <= m < second_wires.len() && second_wires[m] == (b, anchor);
    assert(after_second.copies[second.copies.len() + m] == (b, anchor));
    lemma_common_anchor(after_second, a, b, anchor);
}

} // verus!
