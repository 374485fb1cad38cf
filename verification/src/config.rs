//! The layout of the common gate: its columns, and the one gate that it
//! installs in a constraint system.

use crate::expression::{eval, Cells, Expression};
use crate::field::{fadd, fmul, modulus};
use crate::gate::{gate_poly, gate_residue};
use crate::region::RowView;
use vstd::arithmetic::div_mod::{lemma_add_mod_noop, lemma_mul_mod_noop_left, lemma_small_mod};
use vstd::prelude::*;

verus! {

/// A gate: a polynomial that is zero at every row of a circuit.
#[derive(Debug)]
pub struct Gate {
    pub name: &'static str,
    pub poly: Expression,
}

/// What a constraint system stands for.
pub struct ConstraintSystemView {
    /// The number of witness columns.
    pub advice: nat,
    /// The number of fixed columns.
    pub fixed: nat,
    /// The number of selectors.
    pub selectors: nat,
    /// The witness columns whose cells can be in copy constraints, in the
    /// order in which they were enabled.
    pub equality: Seq<usize>,
    /// The gates, in the order in which they were installed.
    pub gates: Seq<Gate>,
}

/// The columns and gates of a circuit.
#[derive(Debug)]
pub struct ConstraintSystem {
    advice: usize,
    fixed: usize,
    selectors: usize,
    equality: Vec<usize>,
    gates: Vec<Gate>,
}

impl View for ConstraintSystem {
    type V = ConstraintSystemView;

    closed spec fn view(&self) -> ConstraintSystemView {
        ConstraintSystemView {
            advice: self.advice as nat,
            fixed: self.fixed as nat,
            selectors: self.selectors as nat,
            equality: self.equality@,
            gates: self.gates@,
        }
    }
}

impl ConstraintSystem {
    /// A constraint system without columns or gates.
    pub fn new() -> (r: ConstraintSystem)
        ensures
            r@.advice == 0,
            r@.fixed == 0,
            r@.selectors == 0,
            r@.equality == Seq::<usize>::empty(),
            r@.gates == Seq::<Gate>::empty(),
    {
        ConstraintSystem {
            advice: 0,
            fixed: 0,
            selectors: 0,
            equality: Vec::new(),
            gates: Vec::new(),
        }
    }

    /// Allocates a witness column and hands back its number.
    pub fn advice_column(&mut self) -> (r: usize)
        requires
            old(self)@.advice < usize::MAX,
        ensures
            r == old(self)@.advice,
            final(self)@ == (ConstraintSystemView { advice: old(self)@.advice + 1, ..old(self)@ }),
    {
        let column = self.advice;
        self.advice = column + 1;
        column
    }

    /// Allocates a fixed column and hands back its number.
    pub fn fixed_column(&mut self) -> (r: usize)
        requires
            old(self)@.fixed < usize::MAX,
        ensures
            r == old(self)@.fixed,
            final(self)@ == (ConstraintSystemView { fixed: old(self)@.fixed + 1, ..old(self)@ }),
    {
        let column = self.fixed;
        self.fixed = column + 1;
        column
    }

    /// Allocates a selector and hands back its number.
    pub fn selector(&mut self) -> (r: usize)
        requires
            old(self)@.selectors < usize::MAX,
        ensures
            r == old(self)@.selectors,
            final(self)@ == (ConstraintSystemView {
                selectors: old(self)@.selectors + 1,
                ..old(self)@
            }),
    {
        let selector = self.selectors;
        self.selectors = selector + 1;
        selector
    }

    /// Lets the cells of a witness column be in copy constraints.
    pub fn enable_equality(&mut self, column: usize)
        ensures
            final(self)@ == (ConstraintSystemView {
                equality: old(self)@.equality.push(column),
                ..old(self)@
            }),
    {
        self.equality.push(column);
    }

    /// Installs a gate.
    pub fn create_gate(&mut self, name: &'static str, poly: Expression)
        ensures
            final(self)@ == (ConstraintSystemView {
                gates: old(self)@.gates.push(Gate { name, poly }),
                ..old(self)@
            }),
    {
        self.gates.push(Gate { name, poly });
    }

    /// The number of witness columns.
    pub fn num_advice_columns(&self) -> (r: usize)
        ensures
            r == self@.advice,
    {
        self.advice
    }

    /// The number of fixed columns.
    pub fn num_fixed_columns(&self) -> (r: usize)
        ensures
            r == self@.fixed,
    {
        self.fixed
    }

    /// The number of selectors.
    pub fn num_selectors(&self) -> (r: usize)
        ensures
            r == self@.selectors,
    {
        self.selectors
    }

    /// The witness columns whose cells can be in copy constraints.
    pub fn equality_columns(&self) -> (r: &Vec<usize>)
        ensures
            r@ == self@.equality,
    {
        &self.equality
    }

    /// The gates.
    pub fn gates(&self) -> (r: &Vec<Gate>)
        ensures
            r@ == self@.gates,
    {
        &self.gates
    }
}

/// The part of a range check that takes part in the layout of a circuit.
pub trait LookupAssistConfig {
    /// Registers that, at every row, the value of `col` is to be within the
    /// bound that the value of `sz` stands for.
    fn register(&self, cs: &mut ConstraintSystem, col: Expression, sz: Expression);
}

/// A lookup assist together with the record of what was registered with it.
pub struct LookupRegistry<LC: LookupAssistConfig> {
    assist: LC,
    registered: Ghost<Seq<(Expression, Expression)>>,
}

impl<LC: LookupAssistConfig> LookupRegistry<LC> {
    /// What was registered with the assist, oldest first: each time the
    /// polynomial of a value and the polynomial of its bound.
    pub closed spec fn registered(&self) -> Seq<(Expression, Expression)> {
        self.registered@
    }

    /// The assist, as a specification.
    pub closed spec fn inner(&self) -> LC {
        self.assist
    }

    /// Takes an assist with which nothing was registered yet.
    pub fn new(assist: LC) -> (r: Self)
        ensures
            r.registered() == Seq::<(Expression, Expression)>::empty(),
            r.inner() == assist,
    {
        LookupRegistry { assist, registered: Ghost(Seq::empty()) }
    }

    /// The assist.
    pub fn assist(&self) -> (r: &LC)
        ensures
            *r == self.inner(),
    {
        &self.assist
    }

    /// Hands the assist back.
    pub fn into_assist(self) -> (r: LC)
        ensures
            r == self.inner(),
    {
        self.assist
    }

    /// Registers with the assist that the value of `col` is to be within the
    /// bound that the value of `sz` stands for, and records it.
    pub fn register(&mut self, cs: &mut ConstraintSystem, col: Expression, sz: Expression)
        ensures
            final(self).registered() == old(self).registered().push((col, sz)),
            final(self).inner() == old(self).inner(),
    {
        proof {
            self.registered@ = self.registered@.push((col, sz));
        }
        self.assist.register(cs, col, sz);
    }
}

/// The name of the common gate.
pub const GATE_NAME: &'static str = "one line constraint";

/// The columns of the common gate: five witness columns `l0, l1, l2, l3, d`,
/// eleven fixed columns `c0, c1, c2, c3, cd, cdn, c, c03, c12, lookup_hint,
/// lookup_ind`, and one selector.
#[derive(Clone, Copy, Debug)]
pub struct CommonGateConfig {
    pub witness: [usize; 5],
    pub fixed: [usize; 11],
    pub selector: [usize; 1],
}

/// The cell of a witness column, `rotation` rows on.
pub open spec fn advice(column: usize, rotation: i32) -> Expression {
    Expression::Advice { column, rotation }
}

/// The product of two polynomials.
pub open spec fn times(a: Expression, b: Expression) -> Expression {
    Expression::Product(Box::new(a), Box::new(b))
}

/// The sum of two polynomials.
pub open spec fn plus(a: Expression, b: Expression) -> Expression {
    Expression::Sum(Box::new(a), Box::new(b))
}

impl CommonGateConfig {
    /// The fixed column of the coefficient at `place` among
    /// `c0, c1, c2, c3, cd, cdn, c03, c12, c`.
    pub open spec fn coefficient_column_spec(self, place: int) -> usize {
        if place == 6 {
            self.fixed[7]
        } else if place == 7 {
            self.fixed[8]
        } else if place == 8 {
            self.fixed[6]
        } else {
            self.fixed[place]
        }
    }

    /// The witness cell of the given slot among `l0, l1, l2, l3, d,
    /// d_next`: `d_next` is the column `d`, one row on.
    pub open spec fn witness_expression(self, slot: int) -> Expression {
        if slot == 5 {
            advice(self.witness[4], 1)
        } else {
            advice(self.witness[slot], 0)
        }
    }

    /// The cell of the coefficient at `place`.
    pub open spec fn coefficient_expression(self, place: int) -> Expression {
        Expression::Fixed(self.coefficient_column_spec(place))
    }

    /// The `k`-th of the nine terms of the identity.
    pub open spec fn summand(self, k: int) -> Expression {
        if k == 6 {
            times(
                times(self.witness_expression(0), self.witness_expression(3)),
                self.coefficient_expression(6),
            )
        } else if k == 7 {
            times(
                times(self.witness_expression(1), self.witness_expression(2)),
                self.coefficient_expression(7),
            )
        } else if k == 8 {
            self.coefficient_expression(8)
        } else {
            times(self.witness_expression(k), self.coefficient_expression(k))
        }
    }

    /// The sum of the terms of the identity up to the `k`-th.
    pub open spec fn summands_upto(self, k: nat) -> Expression
        decreases k,
    {
        if k == 0 {
            self.summand(0)
        } else {
            plus(self.summands_upto((k - 1) as nat), self.summand(k as int))
        }
    }

    /// The left side of the identity, over the cells of the columns:
    /// `l0*c0 + l1*c1 + l2*c2 + l3*c3 + d*cd + d_next*cdn + l0*l3*c03 +
    /// l1*l2*c12 + c`.
    pub open spec fn identity_expression(self) -> Expression {
        self.summands_upto(8)
    }

    /// The polynomial of the common gate: the selector times the left side of the
    /// identity.
    pub open spec fn gate_expression(self) -> Expression {
        times(Expression::Selector(self.selector[0]), self.identity_expression())
    }

    /// The value that a row is looked up with: `l0` times the lookup
    /// indicator.
    pub open spec fn lookup_value_expression(self) -> Expression {
        times(advice(self.witness[0], 0), Expression::Fixed(self.fixed[10]))
    }

    /// The bound that a row is looked up against: the lookup hint.
    pub open spec fn lookup_bound_expression(self) -> Expression {
        Expression::Fixed(self.fixed[9])
    }

    /// The six witness values of the row at `row`.
    pub open spec fn row_witness(self, cells: Cells, row: int) -> Seq<nat> {
        seq![
            (cells.advice)(self.witness[0], row),
            (cells.advice)(self.witness[1], row),
            (cells.advice)(self.witness[2], row),
            (cells.advice)(self.witness[3], row),
            (cells.advice)(self.witness[4], row),
            (cells.advice)(self.witness[4], row + 1),
        ]
    }

    /// The nine coefficients of the row at `row`.
    pub open spec fn row_coeffs(self, cells: Cells, row: int) -> Seq<nat> {
        Seq::new(9, |place: int| (cells.fixed)(self.coefficient_column_spec(place), row))
    }
}

impl CommonGateConfig {
    /// The fixed column of the coefficient at `place` among
    /// `c0, c1, c2, c3, cd, cdn, c03, c12, c`.
    pub fn coefficient_column(&self, place: usize) -> (r: usize)
        requires
            place < 9,
        ensures
            r == self.coefficient_column_spec(place as int),
    {
        if place == 6 {
            self.fixed[7]
        } else if place == 7 {
            self.fixed[8]
        } else if place == 8 {
            self.fixed[6]
        } else {
            self.fixed[place]
        }
    }

    /// The witness column of the given slot among `l0, l1, l2, l3, d,
    /// d_next`, and how many rows on its cell lies.
    pub fn witness_cell(&self, slot: usize) -> (r: (usize, i32))
        requires
            slot < 6,
        ensures
            advice(r.0, r.1) == self.witness_expression(slot as int),
    {
        if slot == 5 {
            (self.witness[4], 1)
        } else {
            (self.witness[slot], 0)
        }
    }

    /// The fixed column of the lookup hint.
    pub fn lookup_hint_column(&self) -> (r: usize)
        ensures
            r == self.fixed[9],
    {
        self.fixed[9]
    }

    /// The fixed column of the lookup indicator.
    pub fn lookup_ind_column(&self) -> (r: usize)
        ensures
            r == self.fixed[10],
    {
        self.fixed[10]
    }

    /// The selector of the common gate.
    pub fn selector_index(&self) -> (r: usize)
        ensures
            r == self.selector[0],
    {
        self.selector[0]
    }

    /// The polynomial of the witness cell of a slot.
    fn witness_query(&self, slot: usize) -> (e: Expression)
        requires
            slot < 6,
        ensures
            e == self.witness_expression(slot as int),
    {
        let (column, rotation) = self.witness_cell(slot);
        Expression::Advice { column, rotation }
    }

    /// The polynomial of the cell of a coefficient.
    fn coefficient_query(&self, place: usize) -> (e: Expression)
        requires
            place < 9,
        ensures
            e == self.coefficient_expression(place as int),
    {
        Expression::Fixed(self.coefficient_column(place))
    }

    /// The `k`-th term of the identity.
    fn term(&self, k: usize) -> (e: Expression)
        requires
            k <= 8,
        ensures
            e == self.summand(k as int),
    {
        if k == 6 {
            Expression::product(
                Expression::product(self.witness_query(0), self.witness_query(3)),
                self.coefficient_query(6),
            )
        } else if k == 7 {
            Expression::product(
                Expression::product(self.witness_query(1), self.witness_query(2)),
                self.coefficient_query(7),
            )
        } else if k == 8 {
            self.coefficient_query(8)
        } else {
            Expression::product(self.witness_query(k), self.coefficient_query(k))
        }
    }

    /// The polynomial of the common gate: the selector times the left side of the
    /// identity.
    pub fn gate_polynomial(&self) -> (e: Expression)
        ensures
            e == self.gate_expression(),
    {
        let mut sum = self.term(0);
        let mut k: usize = 0;
        while k < 8
            invariant
                k <= 8,
                sum == self.summands_upto(k as nat),
            decreases 8 - k,
        {
            k = k + 1;
            sum = Expression::sum(sum, self.term(k));
        }
        Expression::product(Expression::Selector(self.selector[0]), sum)
    }

    /// What the lookup assist is registered with: the value that a row is
    /// looked up with, `l0` times the lookup indicator, and the bound that
    /// it is looked up against, the lookup hint.
    pub fn lookup_expressions(&self) -> (r: (Expression, Expression))
        ensures
            r.0 == self.lookup_value_expression(),
            r.1 == self.lookup_bound_expression(),
    {
        (
            Expression::product(
                Expression::Advice { column: self.witness[0], rotation: 0 },
                Expression::Fixed(self.fixed[10]),
            ),
            Expression::Fixed(self.fixed[9]),
        )
    }

    /// Allocates the columns of the common gate, the next five witness
    /// columns, eleven fixed columns and selector that are free, and lets the
    /// cells of the witness columns be in copy constraints.
    pub fn allocate(cs: &mut ConstraintSystem) -> (config: CommonGateConfig)
        requires
            old(cs)@.advice + 5 <= usize::MAX,
            old(cs)@.fixed + 11 <= usize::MAX,
            old(cs)@.selectors + 1 <= usize::MAX,
        ensures
            forall|i: int| 0 <= i < 5 ==> config.witness[i] == old(cs)@.advice + i,
            forall|i: int| 0 <= i < 11 ==> config.fixed[i] == old(cs)@.fixed + i,
            config.selector[0] == old(cs)@.selectors,
            final(cs)@ == (ConstraintSystemView {
                advice: old(cs)@.advice + 5,
                fixed: old(cs)@.fixed + 11,
                selectors: old(cs)@.selectors + 1,
                equality: old(cs)@.equality + config.witness@,
                gates: old(cs)@.gates,
            }),
    {
        let ghost before = cs@;
        let witness = [
            cs.advice_column(),
            cs.advice_column(),
            cs.advice_column(),
            cs.advice_column(),
            cs.advice_column(),
        ];
        cs.enable_equality(witness[0]);
        cs.enable_equality(witness[1]);
        cs.enable_equality(witness[2]);
        cs.enable_equality(witness[3]);
        cs.enable_equality(witness[4]);
        let fixed = [
            cs.fixed_column(),
            cs.fixed_column(),
            cs.fixed_column(),
            cs.fixed_column(),
            cs.fixed_column(),
            cs.fixed_column(),
            cs.fixed_column(),
            cs.fixed_column(),
            cs.fixed_column(),
            cs.fixed_column(),
            cs.fixed_column(),
        ];
        let selector = [cs.selector()];
        proof {
            assert(cs@.equality =~= before.equality + witness@);
        }
        CommonGateConfig { fixed, selector, witness }
    }

    /// Lays out the common gate in a constraint system.
    ///
    /// The columns are allocated as `allocate` says. The lookup assist is
    /// registered with once: the value to look up is `l0` times the lookup
    /// indicator, its bound is the lookup hint. One gate is installed last:
    /// the identity, guarded by the selector. What the lookup assist does to
    /// the constraint system is its own business: this gate is the last one
    /// whatever it did.
    pub fn configure<LC: LookupAssistConfig>(
        cs: &mut ConstraintSystem,
        lookup_assist_config: &mut LookupRegistry<LC>,
    ) -> (config: CommonGateConfig)
        requires
            old(cs)@.advice + 5 <= usize::MAX,
            old(cs)@.fixed + 11 <= usize::MAX,
            old(cs)@.selectors + 1 <= usize::MAX,
        ensures
            forall|i: int| 0 <= i < 5 ==> config.witness[i] == old(cs)@.advice + i,
            forall|i: int| 0 <= i < 11 ==> config.fixed[i] == old(cs)@.fixed + i,
            config.selector[0] == old(cs)@.selectors,
            final(lookup_assist_config).registered() == old(lookup_assist_config).registered().push(
                (config.lookup_value_expression(), config.lookup_bound_expression()),
            ),
            final(lookup_assist_config).inner() == old(lookup_assist_config).inner(),
            final(cs)@.gates.len() > 0,
            final(cs)@.gates.last() == (Gate { name: GATE_NAME, poly: config.gate_expression() }),
    {
        let config = CommonGateConfig::allocate(cs);
        let (col, sz) = config.lookup_expressions();
        lookup_assist_config.register(cs, col, sz);
        cs.create_gate(GATE_NAME, config.gate_polynomial());
        config
    }
}

/// The `k`-th of the nine terms of the left side of the identity, in the
/// integers.
pub open spec fn gate_term(w: Seq<nat>, c: Seq<nat>, k: int) -> nat {
    if k == 6 {
        w[0] * w[3] * c[6]
    } else if k == 7 {
        w[1] * w[2] * c[7]
    } else if k == 8 {
        c[8]
    } else {
        w[k] * c[k]
    }
}

/// The sum of the terms of the left side of the identity up to the `k`-th,
/// in the integers.
pub open spec fn gate_terms_upto(w: Seq<nat>, c: Seq<nat>, k: nat) -> nat
    decreases k,
{
    if k == 0 {
        gate_term(w, c, 0)
    } else {
        gate_terms_upto(w, c, (k - 1) as nat) + gate_term(w, c, k as int)
    }
}

/// Each term of the identity evaluates to the term of the left side, up to
/// a multiple of the modulus.
proof fn lemma_summand(config: CommonGateConfig, cells: Cells, row: int, k: int)
    requires
        0 <= k <= 8,
    ensures
        eval(config.summand(k), cells, row) % modulus() == gate_term(
            config.row_witness(cells, row),
            config.row_coeffs(cells, row),
            k,
        ) % modulus(),
{
    let w = config.row_witness(cells, row);
    let c = config.row_coeffs(cells, row);
    let p = modulus() as int;
    reveal_with_fuel(eval, 4);
    if k == 6 {
        assert(eval(config.summand(k), cells, row) == fmul(fmul(w[0], w[3]), c[6]));
        lemma_mul_mod_noop_left((w[0] * w[3]) as int, c[6] as int, p);
    } else if k == 7 {
        assert(eval(config.summand(k), cells, row) == fmul(fmul(w[1], w[2]), c[7]));
        lemma_mul_mod_noop_left((w[1] * w[2]) as int, c[7] as int, p);
    } else if k == 8 {
        assert(eval(config.summand(k), cells, row) == c[8]);
    } else {
        assert(eval(config.summand(k), cells, row) == fmul(w[k], c[k]));
    }
}

/// The sum of the terms up to the `k`-th evaluates to the sum of the terms
/// of the left side, in the field.
proof fn lemma_summands_upto(config: CommonGateConfig, cells: Cells, row: int, k: nat)
    requires
        k <= 8,
    ensures
        eval(config.summands_upto(k), cells, row) % modulus() == gate_terms_upto(
            config.row_witness(cells, row),
            config.row_coeffs(cells, row),
            k,
        ) % modulus(),
        k > 0 ==> eval(config.summands_upto(k), cells, row) < modulus(),
    decreases k,
{
    let w = config.row_witness(cells, row);
    let c = config.row_coeffs(cells, row);
    let p = modulus() as int;
    lemma_summand(config, cells, row, k as int);
    if k > 0 {
        lemma_summands_upto(config, cells, row, (k - 1) as nat);
        let a = eval(config.summands_upto((k - 1) as nat), cells, row);
        let b = eval(config.summand(k as int), cells, row);
        assert(eval(config.summands_upto(k), cells, row) == fadd(a, b));
        lemma_add_mod_noop(a as int, b as int, p);
        lemma_add_mod_noop(
            gate_terms_upto(w, c, (k - 1) as nat) as int,
            gate_term(w, c, k as int) as int,
            p,
        );
        lemma_small_mod(fadd(a, b), modulus());
    }
}

/// The polynomial of the common gate is the left side of the identity where the
/// selector is on, and zero where it is off: it is zero at a row exactly
/// when the row's selector is off or its cells satisfy the identity.
pub proof fn lemma_gate_expression(config: CommonGateConfig, cells: Cells, row: int)
    ensures
        eval(config.identity_expression(), cells, row) == gate_residue(
            config.row_witness(cells, row),
            config.row_coeffs(cells, row),
        ),
        eval(config.gate_expression(), cells, row) == (if (cells.selector)(
            config.selector[0],
            row,
        ) {
            gate_residue(config.row_witness(cells, row), config.row_coeffs(cells, row))
        } else {
            0
        }),
{
    let w = config.row_witness(cells, row);
    let c = config.row_coeffs(cells, row);
    let inner = eval(config.identity_expression(), cells, row);
    lemma_summands_upto(config, cells, row, 8);
    assert(gate_terms_upto(w, c, 8) == gate_poly(w, c)) by {
        reveal_with_fuel(gate_terms_upto, 9);
    }
    lemma_small_mod(inner, modulus());
    assert(eval(config.gate_expression(), cells, row) == fmul(
        eval(Expression::Selector(config.selector[0]), cells, row),
        inner,
    ));
    assert(1 * inner == inner);
    assert(0 * inner == 0);
}

/// Where the cells of a circuit hold a well-formed row, the polynomial of
/// the common gate is zero at the offset of the row.
pub proof fn lemma_row_satisfies_gate(config: CommonGateConfig, row: RowView, cells: Cells)
    requires
        row.wf(),
        (cells.selector)(config.selector[0], row.offset as int) == row.selector,
        row.selector ==> config.row_witness(cells, row.offset as int) == row.witness,
        row.selector ==> config.row_coeffs(cells, row.offset as int) == row.coeffs,
    ensures
        eval(config.gate_expression(), cells, row.offset as int) == 0,
{
    lemma_gate_expression(config, cells, row.offset as int);
}

} // verus!
