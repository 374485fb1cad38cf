//! The rows of a region, the cells in them, and the copy constraints between
//! cells.
//!
//! A region is a record of what has been assigned: its rows in the order of
//! their offsets, and the pairs of cells that copy constraints tie together.
//! Every row whose selector is on satisfies the identity.

use crate::field::Fe;
use crate::gate::{fe_values, gate_residue, gate_value, identity_holds};
use vstd::prelude::*;

verus! {

/// Why a circuit could not be built.
#[derive(Clone, Copy, Debug, PartialEq, Eq, Structural)]
pub enum Error {
    /// The values and coefficients of a row do not satisfy the identity.
    IdentityViolation,
    /// The offset of a row is not beyond the rows that the region holds.
    CellOccupied,
    /// A width in bits that is not a multiple of four.
    LimbSize,
    /// No evidence could be given that a value is within its bound.
    LookupRejected,
}

/// A cell of a region: the `slot`-th witness of the `row`-th row that was
/// assigned in the region numbered `region`.
#[derive(Clone, Copy, Debug, PartialEq, Eq, Structural)]
pub struct Cell {
    pub region: usize,
    pub row: usize,
    pub slot: usize,
}

/// A field value, and the cell that holds it once it has been assigned.
#[derive(Clone, Copy, Debug)]
pub struct Limb {
    cell: Option<Cell>,
    value: Fe,
}

/// What a limb stands for.
pub struct LimbView {
    pub cell: Option<Cell>,
    pub value: nat,
}

impl View for Limb {
    type V = LimbView;

    closed spec fn view(&self) -> LimbView {
        LimbView { cell: self.cell, value: self.value@ }
    }
}

impl Limb {
    /// A limb of the given value, anchored at the given cell if there is one.
    pub fn new(cell: Option<Cell>, value: Fe) -> (r: Limb)
        ensures
            r@ == (LimbView { cell, value: value@ }),
    {
        Limb { cell, value }
    }

    /// The value of the limb.
    pub fn value(&self) -> (r: Fe)
        ensures
            r@ == self@.value,
    {
        self.value
    }

    /// The cell that the limb is anchored at.
    pub fn cell(&self) -> (r: Option<Cell>)
        ensures
            r == self@.cell,
    {
        self.cell
    }
}

/// What a row stands for.
pub struct RowView {
    /// Where the row lies in its region.
    pub offset: nat,
    /// The six witness values `l0, l1, l2, l3, d, d_next`.
    pub witness: Seq<nat>,
    /// The nine coefficients `c0, c1, c2, c3, cd, cdn, c03, c12, c`.
    pub coeffs: Seq<nat>,
    /// Whether the identity is enforced on the row.
    pub selector: bool,
    /// The bound that the first witness is looked up against; zero for none.
    pub hint: u64,
}

impl RowView {
    /// The lookup indicator of the row: one when the row has a hint.
    pub open spec fn indicator(self) -> nat {
        if self.hint == 0 {
            0
        } else {
            1
        }
    }

    /// A row has six witness values and nine coefficients, and satisfies the
    /// identity when its selector is on.
    pub open spec fn wf(self) -> bool {
        &&& self.witness.len() == 6
        &&& self.coeffs.len() == 9
        &&& self.selector ==> identity_holds(self.witness, self.coeffs)
    }
}

/// One assigned row.
#[derive(Clone, Copy, Debug)]
pub struct Row {
    offset: usize,
    witness: [Fe; 6],
    coeffs: [Fe; 9],
    selector: bool,
    hint: u64,
}

impl View for Row {
    type V = RowView;

    closed spec fn view(&self) -> RowView {
        RowView {
            offset: self.offset as nat,
            witness: fe_values(self.witness@),
            coeffs: fe_values(self.coeffs@),
            selector: self.selector,
            hint: self.hint,
        }
    }
}

impl Row {
    /// Where the row lies in its region.
    pub fn offset(&self) -> (r: usize)
        ensures
            r == self@.offset,
    {
        self.offset
    }

    /// The witness value in the given slot.
    pub fn witness(&self, slot: usize) -> (r: Fe)
        requires
            slot < 6,
        ensures
            r@ == self@.witness[slot as int],
    {
        self.witness[slot]
    }

    /// The coefficient at the given place.
    pub fn coefficient(&self, place: usize) -> (r: Fe)
        requires
            place < 9,
        ensures
            r@ == self@.coeffs[place as int],
    {
        self.coeffs[place]
    }

    /// Whether the identity is enforced on the row.
    pub fn selector(&self) -> (r: bool)
        ensures
            r == self@.selector,
    {
        self.selector
    }

    /// The lookup hint of the row.
    pub fn hint(&self) -> (r: u64)
        ensures
            r == self@.hint,
    {
        self.hint
    }

    /// The lookup indicator of the row.
    pub fn indicator(&self) -> (r: u64)
        ensures
            r == self@.indicator(),
    {
        if self.hint == 0 {
            0
        } else {
            1
        }
    }

    /// The left side of the identity on this row. It is zero exactly when
    /// the row satisfies the identity.
    pub fn residue(&self) -> (r: Fe)
        ensures
            r@ == gate_residue(self@.witness, self@.coeffs),
            (r@ == 0) == identity_holds(self@.witness, self@.coeffs),
    {
        gate_value(&self.witness, &self.coeffs)
    }
}

/// What a region stands for.
pub struct RegionView {
    /// The number of the region.
    pub index: usize,
    /// The rows, in the order in which they were assigned.
    pub rows: Seq<RowView>,
    /// The pairs of cells that copy constraints tie together, oldest first.
    pub copies: Seq<(Cell, Cell)>,
}

impl RegionView {
    /// The rows are well formed and their offsets increase.
    pub open spec fn wf(self) -> bool {
        &&& forall|i: int| 0 <= i < self.rows.len() ==> (#[trigger] self.rows[i]).wf()
        &&& forall|i: int, j: int|
            0 <= i < j < self.rows.len() ==> (#[trigger] self.rows[i]).offset < (
            #[trigger] self.rows[j]).offset
    }

    /// Whether a row can be assigned at `offset`: it lies beyond every row
    /// of the region.
    pub open spec fn free_at(self, offset: nat) -> bool {
        self.rows.len() == 0 || self.rows.last().offset < offset
    }

    /// The region with one more row.
    pub open spec fn with_row(self, row: RowView) -> RegionView {
        RegionView { rows: self.rows.push(row), ..self }
    }

    /// The region with more copy constraints.
    pub open spec fn with_copies(self, copies: Seq<(Cell, Cell)>) -> RegionView {
        RegionView { copies: self.copies + copies, ..self }
    }
}

/// The value in a slot of a row: zero where the slot is empty.
pub open spec fn slot_value(slot: Option<LimbView>) -> nat {
    match slot {
        Some(limb) => limb.value,
        None => 0,
    }
}

/// What the limbs in the slots of a row stand for.
pub open spec fn limb_views(slots: Seq<Option<Limb>>) -> Seq<Option<LimbView>> {
    Seq::new(
        slots.len(),
        |i: int|
            match slots[i] {
                Some(limb) => Some(limb@),
                None => None,
            },
    )
}

/// What a sequence of limbs stands for.
pub open spec fn views(limbs: Seq<Limb>) -> Seq<LimbView> {
    Seq::new(limbs.len(), |i: int| limbs[i]@)
}

/// The six witness values of a row with the given slots: the value of each
/// slot, and zero for an empty or missing one.
pub open spec fn witness_values(slots: Seq<Option<LimbView>>) -> Seq<nat> {
    Seq::new(
        6,
        |i: int|
            if i < slots.len() {
                slot_value(slots[i])
            } else {
                0
            },
    )
}

/// The limbs that a row hands back for the first `n` of its slots: one for
/// each slot that is not empty, in the order of the slots, with the value of
/// the slot and anchored at the cell of the slot.
pub open spec fn anchored(region: usize, row: usize, slots: Seq<Option<LimbView>>, n: nat) -> Seq<
    LimbView,
>
    decreases n,
{
    if n == 0 {
        Seq::empty()
    } else {
        let before = anchored(region, row, slots, (n - 1) as nat);
        match slots[n - 1] {
            Some(limb) => before.push(
                LimbView {
                    cell: Some(Cell { region, row, slot: (n - 1) as usize }),
                    value: limb.value,
                },
            ),
            None => before,
        }
    }
}

/// The copy constraints that a row makes for the first `n` of its slots: one
/// for each slot whose limb was anchored before, between the cell of the slot
/// and the cell that the limb was anchored at.
pub open spec fn wired(region: usize, row: usize, slots: Seq<Option<LimbView>>, n: nat) -> Seq<
    (Cell, Cell),
>
    decreases n,
{
    if n == 0 {
        Seq::empty()
    } else {
        let before = wired(region, row, slots, (n - 1) as nat);
        match slots[n - 1] {
            Some(LimbView { cell: Some(prior), .. }) => before.push(
                (Cell { region, row, slot: (n - 1) as usize }, prior),
            ),
            _ => before,
        }
    }
}

/// The region after a row was assigned at `offset` with the given slots,
/// coefficients, selector and hint.
pub open spec fn with_line(
    region: RegionView,
    offset: nat,
    slots: Seq<Option<LimbView>>,
    coeffs: Seq<nat>,
    selector: bool,
    hint: u64,
) -> RegionView {
    region.with_row(
        RowView { offset, witness: witness_values(slots), coeffs, selector, hint },
    ).with_copies(wired(region.index, region.rows.len() as usize, slots, slots.len()))
}

/// One row that is to be assigned under the identity, without a hint: its
/// slots and its coefficients.
pub struct Line {
    pub slots: Seq<Option<LimbView>>,
    pub coeffs: Seq<nat>,
}

impl Line {
    /// A line has at most six slots and nine coefficients, and satisfies
    /// the identity.
    pub open spec fn wf(self) -> bool {
        &&& self.slots.len() <= 6
        &&& self.coeffs.len() == 9
        &&& identity_holds(witness_values(self.slots), self.coeffs)
    }
}

/// The region after the given lines were assigned, one after the other,
/// at `offset`, `offset + 1` and so on.
pub open spec fn with_lines(region: RegionView, offset: nat, lines: Seq<Line>) -> RegionView
    decreases lines.len(),
{
    if lines.len() == 0 {
        region
    } else {
        with_line(
            with_lines(region, offset, lines.drop_last()),
            (offset + lines.len() - 1) as nat,
            lines.last().slots,
            lines.last().coeffs,
            true,
            0,
        )
    }
}

/// Whether each line takes up in `d` what the line before it left in
/// `d_next`. Where rows follow each other directly, the `d_next` of one and
/// the `d` of the next are one cell of the column `d`.
pub open spec fn carried(lines: Seq<Line>) -> bool {
    forall|i: int|
        0 <= i < lines.len() - 1 ==> witness_values((#[trigger] lines[i]).slots)[5]
            == witness_values(lines[i + 1].slots)[4]
}

/// A limb that is not anchored anywhere.
pub open spec fn free(value: nat) -> LimbView {
    LimbView { cell: None, value }
}

/// A well-formed region with a free offset stays well formed when a row is
/// assigned there, and its next offset is free.
pub proof fn lemma_with_line_wf(
    region: RegionView,
    offset: nat,
    slots: Seq<Option<LimbView>>,
    coeffs: Seq<nat>,
    selector: bool,
    hint: u64,
)
    requires
        region.wf(),
        region.free_at(offset),
        coeffs.len() == 9,
        selector ==> identity_holds(witness_values(slots), coeffs),
    ensures
        with_line(region, offset, slots, coeffs, selector, hint).wf(),
        with_line(region, offset, slots, coeffs, selector, hint).free_at(offset + 1),
        with_line(region, offset, slots, coeffs, selector, hint).rows.len() == region.rows.len()
            + 1,
        with_line(region, offset, slots, coeffs, selector, hint).index == region.index,
{
}

/// A well-formed region with a free offset stays well formed when lines are
/// assigned from there on, and has one more row for each line.
pub proof fn lemma_with_lines_wf(region: RegionView, offset: nat, lines: Seq<Line>)
    requires
        region.wf(),
        region.free_at(offset),
        forall|i: int| 0 <= i < lines.len() ==> (#[trigger] lines[i]).wf(),
    ensures
        with_lines(region, offset, lines).wf(),
        with_lines(region, offset, lines).free_at(offset + lines.len()),
        with_lines(region, offset, lines).rows.len() == region.rows.len() + lines.len(),
        with_lines(region, offset, lines).index == region.index,
    decreases lines.len(),
{
    if lines.len() > 0 {
        let head = lines.drop_last();
        assert forall|i: int| 0 <= i < head.len() implies (#[trigger] head[i]).wf() by {
            assert(head[i] == lines[i]);
        }
        lemma_with_lines_wf(region, offset, head);
        assert(lines.last() == lines[lines.len() - 1]);
        lemma_with_line_wf(
            with_lines(region, offset, head),
            (offset + lines.len() - 1) as nat,
            lines.last().slots,
            lines.last().coeffs,
            true,
            0,
        );
    }
}

/// A region of a circuit.
#[derive(Debug)]
pub struct Region {
    index: usize,
    rows: Vec<Row>,
    copies: Vec<(Cell, Cell)>,
}

impl View for Region {
    type V = RegionView;

    closed spec fn view(&self) -> RegionView {
        RegionView {
            index: self.index,
            rows: Seq::new(self.rows@.len(), |i: int| self.rows@[i]@),
            copies: self.copies@,
        }
    }
}

impl Region {
    /// An empty region with the given number.
    pub fn new(index: usize) -> (r: Region)
        ensures
            r@.index == index,
            r@.rows == Seq::<RowView>::empty(),
            r@.copies == Seq::<(Cell, Cell)>::empty(),
            r@.wf(),
    {
        Region { index, rows: Vec::new(), copies: Vec::new() }
    }

    /// The number of the region.
    pub fn index(&self) -> (r: usize)
        ensures
            r == self@.index,
    {
        self.index
    }

    /// The number of rows.
    pub fn len(&self) -> (r: usize)
        ensures
            r == self@.rows.len(),
    {
        self.rows.len()
    }

    /// The `i`-th row that was assigned.
    pub fn row(&self, i: usize) -> (r: Row)
        requires
            i < self@.rows.len(),
        ensures
            r@ == self@.rows[i as int],
    {
        self.rows[i]
    }

    /// The number of copy constraints.
    pub fn copies_len(&self) -> (r: usize)
        ensures
            r == self@.copies.len(),
    {
        self.copies.len()
    }

    /// The `i`-th copy constraint that was made.
    pub fn copy(&self, i: usize) -> (r: (Cell, Cell))
        requires
            i < self@.copies.len(),
        ensures
            r == self@.copies[i as int],
    {
        self.copies[i]
    }

    /// Whether a row can be assigned at `offset`.
    pub fn free_at(&self, offset: usize) -> (r: bool)
        ensures
            r == self@.free_at(offset as nat),
    {
        let n = self.rows.len();
        n == 0 || self.rows[n - 1].offset < offset
    }
    /// Records a row at `offset`, and the copy constraints of its slots.
    pub(crate) fn commit(
        &mut self,
        offset: usize,
        slots: &[Option<Limb>],
        witness: [Fe; 6],
        coeffs: [Fe; 9],
        selector: bool,
        hint: u64,
    ) -> (limbs: Vec<Limb>)
        requires
            old(self)@.wf(),
            slots@.len() <= 6,
            old(self)@.free_at(offset as nat),
            fe_values(witness@) == witness_values(limb_views(slots@)),
            selector ==> identity_holds(fe_values(witness@), fe_values(coeffs@)),
        ensures
            final(self)@.wf(),
            final(self)@ == with_line(
                old(self)@,
                offset as nat,
                limb_views(slots@),
                fe_values(coeffs@),
                selector,
                hint,
            ),
            views(limbs@) == anchored(
                old(self)@.index,
                old(self)@.rows.len() as usize,
                limb_views(slots@),
                slots@.len(),
            ),
    {
        let ghost before = self@;
        let ghost sv = limb_views(slots@);
        let row = self.rows.len();
        let mut limbs: Vec<Limb> = Vec::new();
        let mut i: usize = 0;
        while i < slots.len()
            invariant
                i <= slots@.len() <= 6,
                sv == limb_views(slots@),
                row == before.rows.len(),
                self@.index == before.index,
                self@.rows == before.rows,
                self@.copies == before.copies + wired(before.index, row, sv, i as nat),
                views(limbs@) == anchored(before.index, row, sv, i as nat),
            decreases slots@.len() - i,
        {
            match &slots[i] {
                Some(limb) => {
                    let cell = Cell { region: self.index, row, slot: i };
                    limbs.push(Limb { cell: Some(cell), value: limb.value });
                    match limb.cell {
                        Some(prior) => {
                            self.copies.push((cell, prior));
                        },
                        None => {},
                    }
                },
                None => {},
            }
            i = i + 1;
        }
        self.rows.push(Row { offset, witness, coeffs, selector, hint });
        proof {
            assert(self@.rows =~= before.rows.push(
                RowView {
                    offset: offset as nat,
                    witness: witness_values(sv),
                    coeffs: fe_values(coeffs@),
                    selector,
                    hint,
                },
            ));
        }
        limbs
    }
}

} // verus!
