use host_circuits::assign::{close_row, LookupAssist, LookupAssistChip};
use host_circuits::config::CommonGateConfig;
use host_circuits::field::Fe;
use host_circuits::region::{Cell, Error, Limb, Region};

struct Recorder {
    seen: Vec<(Fe, u64)>,
    refuse: bool,
}

impl LookupAssistChip for Recorder {
    fn provide_lookup_evidence(&mut self, value: Fe, sz: u64) -> Result<(), Error> {
        self.seen.push((value, sz));
        if self.refuse {
            Err(Error::LookupRejected)
        } else {
            Ok(())
        }
    }
}

fn recorder() -> LookupAssist<Recorder> {
    LookupAssist::new(Recorder { seen: vec![], refuse: false })
}

fn refusing() -> LookupAssist<Recorder> {
    LookupAssist::new(Recorder { seen: vec![], refuse: true })
}

fn config() -> CommonGateConfig {
    CommonGateConfig {
        witness: [0, 1, 2, 3, 4],
        fixed: [0, 1, 2, 3, 4, 5, 6, 7, 8, 9, 10],
        selector: [0],
    }
}

fn free(v: u64) -> Option<Limb> {
    Some(Limb::new(None, Fe::from_u64(v)))
}

fn product_line() -> ([Option<Limb>; 6], [Option<Fe>; 9]) {
    // 3 * 5 - 15 = 0
    (
        [free(3), None, None, None, free(15), None],
        [Some(Fe::from_u64(5)), None, None, None, Some(Fe::one().neg()), None, None, None, None],
    )
}

#[test]
fn line_with_satisfied_identity_is_recorded() {
    let mut region = Region::new(0);
    let mut chip = recorder();
    let mut offset = 0usize;
    let (values, coeffs) = product_line();
    let limbs =
        config().assign_line(&mut region, &mut chip, &mut offset, values, coeffs, 0).unwrap();
    assert_eq!(offset, 1);
    assert_eq!(limbs.len(), 2);
    assert_eq!(limbs[0].cell(), Some(Cell { region: 0, row: 0, slot: 0 }));
    assert_eq!(limbs[0].value(), Fe::from_u64(3));
    assert_eq!(limbs[1].cell(), Some(Cell { region: 0, row: 0, slot: 4 }));
    assert_eq!(limbs[1].value(), Fe::from_u64(15));
    assert_eq!(region.len(), 1);
    let row = region.row(0);
    assert!(row.residue().is_zero());
    assert!(row.selector());
    assert_eq!(row.offset(), 0);
    assert_eq!(row.hint(), 0);
    assert_eq!(row.indicator(), 0);
    assert_eq!(row.witness(0), Fe::from_u64(3));
    assert_eq!(row.witness(1), Fe::zero());
    assert_eq!(row.witness(4), Fe::from_u64(15));
    assert_eq!(row.witness(5), Fe::zero());
    assert_eq!(row.coefficient(0), Fe::from_u64(5));
    assert_eq!(row.coefficient(4), Fe::one().neg());
    assert_eq!(row.coefficient(8), Fe::zero());
    assert_eq!(region.copies_len(), 0);
    assert!(chip.chip().seen.is_empty());
}

#[test]
fn line_that_violates_the_identity_changes_nothing() {
    let mut region = Region::new(0);
    let mut chip = recorder();
    let mut offset = 4usize;
    let (mut values, coeffs) = product_line();
    values[4] = free(16);
    let anchored = Limb::new(Some(Cell { region: 9, row: 1, slot: 2 }), Fe::from_u64(3));
    values[0] = Some(anchored);
    let r = config().assign_line(&mut region, &mut chip, &mut offset, values, coeffs, 8);
    assert_eq!(r.err(), Some(Error::IdentityViolation));
    assert_eq!(offset, 4);
    assert_eq!(region.len(), 0);
    assert_eq!(region.copies_len(), 0);
    assert!(chip.chip().seen.is_empty());
}

#[test]
fn line_at_a_taken_offset_is_refused() {
    let mut region = Region::new(0);
    let mut chip = recorder();
    let mut offset = 5usize;
    let (values, coeffs) = product_line();
    config().assign_line(&mut region, &mut chip, &mut offset, values, coeffs, 0).unwrap();
    assert_eq!(offset, 6);
    for taken in [5usize, 0, 3] {
        let mut at = taken;
        let (values, coeffs) = product_line();
        let r = config().assign_line(&mut region, &mut chip, &mut at, values, coeffs, 0);
        assert_eq!(r.err(), Some(Error::CellOccupied));
        assert_eq!(at, taken);
        assert_eq!(region.len(), 1);
    }
    assert!(!region.free_at(5));
    assert!(region.free_at(6));
    let mut later = 40usize;
    let (values, coeffs) = product_line();
    config().assign_line(&mut region, &mut chip, &mut later, values, coeffs, 0).unwrap();
    assert_eq!(later, 41);
    assert_eq!(region.len(), 2);
    assert_eq!(region.row(1).offset(), 40);
}

#[test]
fn identity_is_checked_before_the_offset() {
    let mut region = Region::new(0);
    let mut chip = recorder();
    let mut offset = 0usize;
    let (values, coeffs) = product_line();
    config().assign_line(&mut region, &mut chip, &mut offset, values, coeffs, 0).unwrap();
    let mut again = 0usize;
    let (mut values, coeffs) = product_line();
    values[4] = free(1);
    let r = config().assign_line(&mut region, &mut chip, &mut again, values, coeffs, 0);
    assert_eq!(r.err(), Some(Error::IdentityViolation));
}

#[test]
fn hint_asks_for_evidence_once_on_the_first_value() {
    let mut region = Region::new(0);
    let mut chip = recorder();
    let mut offset = 0usize;
    let (values, coeffs) = product_line();
    config().assign_line(&mut region, &mut chip, &mut offset, values, coeffs, 12).unwrap();
    assert_eq!(chip.chip().seen, vec![(Fe::from_u64(3), 12)]);
    assert_eq!(region.row(0).hint(), 12);
    assert_eq!(region.row(0).indicator(), 1);
    assert_eq!(offset, 1);
}

#[test]
fn no_hint_asks_for_no_evidence() {
    let mut region = Region::new(0);
    let mut chip = refusing();
    let mut offset = 0usize;
    for _ in 0..3 {
        let (values, coeffs) = product_line();
        config().assign_line(&mut region, &mut chip, &mut offset, values, coeffs, 0).unwrap();
    }
    assert!(chip.chip().seen.is_empty());
    assert_eq!(offset, 3);
    let mut five = [free(1), free(2), free(3), free(4), free(5)];
    five[1] = None;
    config().assign_witness(&mut region, &mut chip, &mut offset, five, 0).unwrap();
    assert!(chip.chip().seen.is_empty());
    assert_eq!(offset, 4);
}

#[test]
fn refused_evidence_is_handed_on() {
    let mut region = Region::new(0);
    let mut chip = refusing();
    let mut offset = 2usize;
    let (values, coeffs) = product_line();
    let r = config().assign_line(&mut region, &mut chip, &mut offset, values, coeffs, 7);
    assert_eq!(r.err(), Some(Error::LookupRejected));
    assert_eq!(chip.chip().seen, vec![(Fe::from_u64(3), 7)]);
    assert_eq!(offset, 2);
    assert_eq!(region.len(), 1);
    assert_eq!(region.row(0).offset(), 2);
}

#[test]
fn assist_hands_requests_to_its_chip() {
    let mut assist = recorder();
    assert_eq!(assist.ask(Fe::from_u64(9), 16), Ok(()));
    assert_eq!(assist.ask(Fe::zero(), u64::MAX), Ok(()));
    assert_eq!(assist.chip().seen, vec![(Fe::from_u64(9), 16), (Fe::zero(), u64::MAX)]);
    let mut assist = refusing();
    assert_eq!(assist.ask(Fe::one(), 1), Err(Error::LookupRejected));
    let chip = assist.into_chip();
    assert_eq!(chip.seen, vec![(Fe::one(), 1)]);
    assert!(chip.refuse);
}

#[test]
fn closing_a_row_moves_the_offset_on_evidence_only() {
    let limb = Limb::new(None, Fe::from_u64(1));
    let mut offset = 10usize;
    let limbs = close_row(Ok(()), vec![limb], &mut offset).unwrap();
    assert_eq!(limbs.len(), 1);
    assert_eq!(limbs[0].value(), Fe::one());
    assert_eq!(offset, 11);
    let r = close_row(Err(Error::LookupRejected), vec![limb], &mut offset);
    assert_eq!(r.err(), Some(Error::LookupRejected));
    assert_eq!(offset, 11);
}

#[test]
fn reused_limb_is_tied_to_its_cell_in_each_row() {
    let mut region = Region::new(3);
    let mut chip = recorder();
    let mut offset = 0usize;
    let a = config()
        .assign_constant(&mut region, &mut chip, &mut offset, &Fe::from_u64(3))
        .unwrap();
    assert_eq!(a.cell(), Some(Cell { region: 3, row: 0, slot: 0 }));
    assert_eq!(region.copies_len(), 0);
    let (mut values, coeffs) = product_line();
    values[0] = Some(a);
    let first =
        config().assign_line(&mut region, &mut chip, &mut offset, values, coeffs, 0).unwrap();
    // 3 * 2 + 3 * 3 - 15 = 0, with the limb in l1
    let values = [free(3), Some(a), None, None, free(15), None];
    let coeffs = [
        Some(Fe::from_u64(2)),
        Some(Fe::from_u64(3)),
        None,
        None,
        Some(Fe::one().neg()),
        None,
        None,
        None,
        None,
    ];
    let second =
        config().assign_line(&mut region, &mut chip, &mut offset, values, coeffs, 0).unwrap();
    let anchor = Cell { region: 3, row: 0, slot: 0 };
    let in_first = Cell { region: 3, row: 1, slot: 0 };
    let in_second = Cell { region: 3, row: 2, slot: 1 };
    assert_eq!(first[0].cell(), Some(in_first));
    assert_eq!(second[1].cell(), Some(in_second));
    assert_eq!(region.copies_len(), 2);
    assert_eq!(region.copy(0), (in_first, anchor));
    assert_eq!(region.copy(1), (in_second, anchor));
    assert_eq!(first[0].value(), second[1].value());
}

#[test]
fn limb_of_another_region_keeps_its_cell() {
    let mut region = Region::new(1);
    assert_eq!(region.index(), 1);
    let mut chip = recorder();
    let mut offset = 0usize;
    let far = Cell { region: 0, row: 17, slot: 5 };
    let values = [Some(Limb::new(Some(far), Fe::from_u64(4))), None, None, None, None];
    let limbs = config().assign_witness(&mut region, &mut chip, &mut offset, values, 0).unwrap();
    assert_eq!(limbs.len(), 1);
    assert_eq!(limbs[0].cell(), Some(Cell { region: 1, row: 0, slot: 0 }));
    assert_eq!(region.copy(0), (Cell { region: 1, row: 0, slot: 0 }, far));
}

#[test]
fn witness_row_enforces_no_identity() {
    let mut region = Region::new(0);
    let mut chip = recorder();
    let mut offset = 0usize;
    let values = [free(1), free(2), None, free(4), free(5)];
    let limbs = config().assign_witness(&mut region, &mut chip, &mut offset, values, 0).unwrap();
    assert_eq!(offset, 1);
    assert_eq!(limbs.len(), 4);
    assert_eq!(limbs[2].cell(), Some(Cell { region: 0, row: 0, slot: 3 }));
    assert_eq!(limbs[2].value(), Fe::from_u64(4));
    assert_eq!(limbs[3].cell(), Some(Cell { region: 0, row: 0, slot: 4 }));
    let row = region.row(0);
    assert!(!row.selector());
    assert_eq!(row.witness(1), Fe::from_u64(2));
    assert_eq!(row.witness(2), Fe::zero());
    assert_eq!(row.witness(5), Fe::zero());
    for place in 0..9 {
        assert!(row.coefficient(place).is_zero());
    }
}

#[test]
fn witness_row_with_a_hint_asks_for_evidence() {
    let mut region = Region::new(0);
    let mut chip = recorder();
    let mut offset = 0usize;
    let values = [free(200), None, None, None, None];
    config().assign_witness(&mut region, &mut chip, &mut offset, values, 8).unwrap();
    assert_eq!(chip.chip().seen, vec![(Fe::from_u64(200), 8)]);
    assert_eq!(region.row(0).hint(), 8);
    assert_eq!(region.row(0).indicator(), 1);
    let mut again = 0usize;
    let values = [free(1), None, None, None, None];
    let r = config().assign_witness(&mut region, &mut chip, &mut again, values, 8);
    assert_eq!(r.err(), Some(Error::CellOccupied));
    assert_eq!(chip.chip().seen.len(), 1);
}

#[test]
fn constant_row_holds_the_value_twice() {
    let mut region = Region::new(0);
    let mut chip = recorder();
    let mut offset = 6usize;
    let value = Fe::from_u64(77);
    let limb = config().assign_constant(&mut region, &mut chip, &mut offset, &value).unwrap();
    assert_eq!(offset, 7);
    assert_eq!(limb.value(), value);
    assert_eq!(limb.cell(), Some(Cell { region: 0, row: 0, slot: 0 }));
    let row = region.row(0);
    assert!(row.selector());
    assert!(row.residue().is_zero());
    assert_eq!(row.witness(0), value);
    for slot in 1..6 {
        assert!(row.witness(slot).is_zero());
    }
    for place in 0..9 {
        if place == 6 {
            assert_eq!(row.coefficient(place), value);
        } else {
            assert!(row.coefficient(place).is_zero());
        }
    }
    let mut taken = 6usize;
    let r = config().assign_constant(&mut region, &mut chip, &mut taken, &value);
    assert_eq!(r.err(), Some(Error::CellOccupied));
    assert!(chip.chip().seen.is_empty());
}
