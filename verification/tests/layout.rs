use std::cell::RefCell;

use host_circuits::config::{
    CommonGateConfig, ConstraintSystem, LookupAssistConfig, LookupRegistry, GATE_NAME,
};
use host_circuits::expression::Expression;
use host_circuits::host::{ExternalHostCallEntry, ExternalHostCallEntryTable};

struct Assist {
    registered: RefCell<Vec<(String, String)>>,
    extra_gate: bool,
}

impl LookupAssistConfig for Assist {
    fn register(&self, cs: &mut ConstraintSystem, col: Expression, sz: Expression) {
        self.registered.borrow_mut().push((format!("{:?}", col), format!("{:?}", sz)));
        if self.extra_gate {
            let table = cs.fixed_column();
            cs.create_gate("range", Expression::Fixed(table));
        }
    }
}

fn assist(extra_gate: bool) -> LookupRegistry<Assist> {
    LookupRegistry::new(Assist { registered: RefCell::new(vec![]), extra_gate })
}

fn show(e: &Expression) -> String {
    match e {
        Expression::Selector(s) => format!("s{}", s),
        Expression::Fixed(c) => format!("f{}", c),
        Expression::Advice { column, rotation } => format!("a{}@{}", column, rotation),
        Expression::Sum(a, b) => format!("({} + {})", show(a), show(b)),
        Expression::Product(a, b) => format!("{}*{}", show(a), show(b)),
    }
}

#[test]
fn configure_allocates_the_columns() {
    let mut cs = ConstraintSystem::new();
    let mut assist = assist(false);
    let config = CommonGateConfig::configure(&mut cs, &mut assist);
    assert_eq!(config.witness, [0, 1, 2, 3, 4]);
    assert_eq!(config.fixed, [0, 1, 2, 3, 4, 5, 6, 7, 8, 9, 10]);
    assert_eq!(config.selector, [0]);
    assert_eq!(cs.num_advice_columns(), 5);
    assert_eq!(cs.num_fixed_columns(), 11);
    assert_eq!(cs.num_selectors(), 1);
    assert_eq!(cs.equality_columns(), &vec![0, 1, 2, 3, 4]);
    assert_eq!(cs.gates().len(), 1);
}

#[test]
fn configure_takes_the_next_free_columns() {
    let mut cs = ConstraintSystem::new();
    cs.advice_column();
    cs.advice_column();
    cs.fixed_column();
    cs.selector();
    cs.enable_equality(1);
    let mut assist = assist(false);
    let config = CommonGateConfig::configure(&mut cs, &mut assist);
    assert_eq!(config.witness, [2, 3, 4, 5, 6]);
    assert_eq!(config.fixed, [1, 2, 3, 4, 5, 6, 7, 8, 9, 10, 11]);
    assert_eq!(config.selector, [1]);
    assert_eq!(cs.equality_columns(), &vec![1, 2, 3, 4, 5, 6]);
}

#[test]
fn configure_installs_the_identity() {
    let mut cs = ConstraintSystem::new();
    let mut assist = assist(false);
    CommonGateConfig::configure(&mut cs, &mut assist);
    let gate = &cs.gates()[0];
    assert_eq!(gate.name, GATE_NAME);
    assert_eq!(gate.name, "one line constraint");
    assert_eq!(
        show(&gate.poly),
        "s0*((((((((a0@0*f0 + a1@0*f1) + a2@0*f2) + a3@0*f3) + a4@0*f4) + a4@1*f5) \
         + a0@0*a3@0*f7) + a1@0*a2@0*f8) + f6)"
    );
}

#[test]
fn configure_registers_the_lookup_once() {
    let mut cs = ConstraintSystem::new();
    let mut assist = assist(true);
    let config = CommonGateConfig::configure(&mut cs, &mut assist);
    let (col, sz) = config.lookup_expressions();
    assert_eq!(show(&col), "a0@0*f10");
    assert_eq!(show(&sz), "f9");
    let seen = assist.assist().registered.borrow();
    assert_eq!(seen.len(), 1);
    assert_eq!(seen[0], (format!("{:?}", col), format!("{:?}", sz)));
    // the identity comes last, whatever the assist added
    assert_eq!(cs.gates().len(), 2);
    assert_eq!(cs.gates()[0].name, "range");
    assert_eq!(cs.gates()[1].name, GATE_NAME);
    assert_eq!(show(&cs.gates()[1].poly), show(&config.gate_polynomial()));
    assert_eq!(cs.num_fixed_columns(), 12);
}

#[test]
fn registry_hands_on_to_its_assist() {
    let mut cs = ConstraintSystem::new();
    let mut registry = assist(true);
    registry.register(&mut cs, Expression::Fixed(4), Expression::Selector(2));
    assert_eq!(cs.gates().len(), 1);
    let inner = registry.into_assist();
    let seen = inner.registered.borrow();
    assert_eq!(seen.len(), 1);
    assert_eq!(seen[0], ("Fixed(4)".to_string(), "Selector(2)".to_string()));
}

#[test]
fn columns_by_role() {
    let config = CommonGateConfig {
        witness: [10, 11, 12, 13, 14],
        fixed: [20, 21, 22, 23, 24, 25, 26, 27, 28, 29, 30],
        selector: [7],
    };
    let cells: Vec<(usize, i32)> = (0..6).map(|slot| config.witness_cell(slot)).collect();
    assert_eq!(cells, vec![(10, 0), (11, 0), (12, 0), (13, 0), (14, 0), (14, 1)]);
    // c0, c1, c2, c3, cd, cdn, c03, c12, c
    let columns: Vec<usize> = (0..9).map(|place| config.coefficient_column(place)).collect();
    assert_eq!(columns, vec![20, 21, 22, 23, 24, 25, 27, 28, 26]);
    assert_eq!(config.lookup_hint_column(), 29);
    assert_eq!(config.lookup_ind_column(), 30);
    assert_eq!(config.selector_index(), 7);
}

#[test]
fn polynomials_are_built_from_their_parts() {
    let e = Expression::sum(
        Expression::product(Expression::Selector(1), Expression::Fixed(2)),
        Expression::Advice { column: 3, rotation: 1 },
    );
    assert_eq!(show(&e), "(s1*f2 + a3@1)");
}

#[test]
fn host_call_trace_keeps_its_order() {
    let entries = vec![
        ExternalHostCallEntry { op: 3, value: 10, is_ret: false },
        ExternalHostCallEntry { op: 3, value: 20, is_ret: false },
        ExternalHostCallEntry { op: 3, value: 30, is_ret: true },
        ExternalHostCallEntry { op: 1, value: u64::MAX, is_ret: false },
    ];
    let table = ExternalHostCallEntryTable(entries.clone());
    assert_eq!(table.0, entries);
    assert_eq!(table.0[2], ExternalHostCallEntry { op: 3, value: 30, is_ret: true });
    assert_ne!(table.0[0], table.0[1]);
    assert_eq!(table.0.len(), 4);
}
