use host_circuits::assign::{LookupAssist, LookupAssistChip};
use host_circuits::config::CommonGateConfig;
use host_circuits::field::Fe;
use host_circuits::region::{Cell, Error, Limb, Region};

struct Counter {
    asked: Vec<(Fe, u64)>,
}

impl LookupAssistChip for Counter {
    fn provide_lookup_evidence(&mut self, value: Fe, sz: u64) -> Result<(), Error> {
        self.asked.push((value, sz));
        Ok(())
    }
}

fn gate() -> CommonGateConfig {
    CommonGateConfig {
        witness: [0, 1, 2, 3, 4],
        fixed: [0, 1, 2, 3, 4, 5, 6, 7, 8, 9, 10],
        selector: [0],
    }
}

fn limb(v: u64) -> Limb {
    Limb::new(None, Fe::from_u64(v))
}

fn all_rows_satisfied(region: &Region) -> bool {
    (0..region.len()).all(|i| !region.row(i).selector() || region.row(i).residue().is_zero())
}

fn run_select(cond: u64, f: u64, t: u64) -> (Result<Limb, Error>, Region, usize) {
    let mut region = Region::new(0);
    let mut chip = LookupAssist::new(Counter { asked: vec![] });
    let mut offset = 0usize;
    let r = gate().select(&mut region, &mut chip, &mut offset, &limb(cond), &limb(f), &limb(t), 0);
    (r, region, offset)
}

#[test]
fn select_with_zero_gives_the_first() {
    let (r, region, offset) = run_select(0, 41, 99);
    let chosen = r.unwrap();
    assert_eq!(chosen.value(), Fe::from_u64(41));
    assert_eq!(chosen.cell(), Some(Cell { region: 0, row: 0, slot: 4 }));
    assert_eq!(offset, 1);
    assert_eq!(region.len(), 1);
    assert!(all_rows_satisfied(&region));
}

#[test]
fn select_with_one_gives_the_second() {
    let (r, region, offset) = run_select(1, 41, 99);
    assert_eq!(r.unwrap().value(), Fe::from_u64(99));
    assert_eq!(offset, 1);
    assert!(all_rows_satisfied(&region));
}

#[test]
fn select_row_has_its_layout() {
    let (_, region, _) = run_select(1, 41, 99);
    let row = region.row(0);
    let expected_w = [99u64, 41, 1, 1, 99, 0];
    for slot in 0..6 {
        assert_eq!(row.witness(slot), Fe::from_u64(expected_w[slot]));
    }
    let one = Fe::one();
    let minus_one = Fe::one().neg();
    let zero = Fe::zero();
    let expected_c = [zero, one, zero, zero, minus_one, zero, one, minus_one, zero];
    for place in 0..9 {
        assert_eq!(row.coefficient(place), expected_c[place]);
    }
}

#[test]
fn select_with_another_condition_is_refused() {
    let (r, region, offset) = run_select(2, 41, 99);
    assert_eq!(r.err(), Some(Error::IdentityViolation));
    assert_eq!(region.len(), 0);
    assert_eq!(offset, 0);
    // with equal values the row satisfies the identity whatever the condition
    let (r, _, _) = run_select(2, 41, 41);
    assert_eq!(r.unwrap().value(), Fe::from_u64(41));
}

#[test]
fn select_ties_its_inputs_and_hands_its_hint_on() {
    let mut region = Region::new(0);
    let mut chip = LookupAssist::new(Counter { asked: vec![] });
    let mut offset = 0usize;
    let g = gate();
    let f = g.assign_constant(&mut region, &mut chip, &mut offset, &Fe::from_u64(5)).unwrap();
    let t = g.assign_constant(&mut region, &mut chip, &mut offset, &Fe::from_u64(6)).unwrap();
    let cond = limb(1);
    let chosen = g.select(&mut region, &mut chip, &mut offset, &cond, &f, &t, 9).unwrap();
    assert_eq!(chosen.value(), Fe::from_u64(6));
    assert_eq!(offset, 3);
    assert_eq!(chip.chip().asked, vec![(Fe::from_u64(6), 9)]);
    let t_cell = t.cell().unwrap();
    let f_cell = f.cell().unwrap();
    assert_eq!(region.copies_len(), 3);
    assert_eq!(region.copy(0), (Cell { region: 0, row: 2, slot: 0 }, t_cell));
    assert_eq!(region.copy(1), (Cell { region: 0, row: 2, slot: 1 }, f_cell));
    assert_eq!(region.copy(2), (Cell { region: 0, row: 2, slot: 4 }, t_cell));
}

fn run_sum(terms: &[(u64, u64)], constant: Option<u64>) -> (Limb, Region, usize) {
    let mut region = Region::new(0);
    let mut chip = LookupAssist::new(Counter { asked: vec![] });
    let mut offset = 0usize;
    let limbs: Vec<Limb> = terms.iter().map(|t| limb(t.0)).collect();
    let inputs: Vec<(&Limb, Fe)> =
        limbs.iter().zip(terms.iter()).map(|(l, t)| (l, Fe::from_u64(t.1))).collect();
    let r = gate()
        .sum_with_constant(&mut region, &mut chip, &mut offset, inputs, constant.map(Fe::from_u64))
        .unwrap();
    assert!(chip.chip().asked.is_empty());
    (r, region, offset)
}

#[test]
fn sum_of_five_terms_with_a_constant() {
    let (a, b, c, d, e) = (11u64, 13, 17, 19, 23);
    let (r, region, offset) = run_sum(&[(a, 1), (b, 2), (c, 1), (d, 3), (e, 1)], Some(7));
    assert_eq!(r.value(), Fe::from_u64(a + 2 * b + c + 3 * d + e + 7));
    assert_eq!(offset, 3);
    assert_eq!(region.len(), 3);
    assert_eq!(r.cell(), Some(Cell { region: 0, row: 2, slot: 0 }));
    assert!(all_rows_satisfied(&region));
    // the running total is carried from row to row
    let first = a + 2 * b + c + 3 * d;
    assert_eq!(region.row(0).witness(4), Fe::zero());
    assert_eq!(region.row(0).witness(5), Fe::from_u64(first));
    assert_eq!(region.row(1).witness(4), Fe::from_u64(first));
    assert_eq!(region.row(1).witness(5), Fe::from_u64(first + e));
    assert_eq!(region.row(2).witness(4), Fe::from_u64(first + e));
    // the constant stands in the last row only
    assert!(region.row(0).coefficient(8).is_zero());
    assert!(region.row(1).coefficient(8).is_zero());
    assert_eq!(region.row(2).coefficient(8), Fe::from_u64(7));
}

#[test]
fn sum_of_up_to_three_terms_takes_one_row() {
    for n in 1..=3usize {
        let terms = [(5u64, 2u64), (7, 3), (9, 4)];
        let (r, region, offset) = run_sum(&terms[..n], Some(100));
        let expected: u64 = terms[..n].iter().map(|t| t.0 * t.1).sum::<u64>() + 100;
        assert_eq!(r.value(), Fe::from_u64(expected));
        assert_eq!(offset, 1);
        assert_eq!(region.len(), 1);
        assert_eq!(r.cell(), Some(Cell { region: 0, row: 0, slot: 3 }));
        assert!(all_rows_satisfied(&region));
        assert_eq!(region.row(0).coefficient(8), Fe::from_u64(100));
        assert_eq!(region.row(0).coefficient(3), Fe::one().neg());
    }
}

#[test]
fn one_row_and_many_rows_give_the_same_sum() {
    // three terms in one row, and the same three with a term of weight zero
    let (short, _, _) = run_sum(&[(5, 2), (7, 3), (9, 4)], Some(1));
    let (long, region, _) = run_sum(&[(5, 2), (7, 3), (9, 4), (1000, 0)], Some(1));
    assert_eq!(short.value(), long.value());
    assert_eq!(short.value(), Fe::from_u64(10 + 21 + 36 + 1));
    assert_eq!(region.len(), 2);
}

#[test]
fn sum_of_no_terms_is_the_constant() {
    let (r, region, offset) = run_sum(&[], Some(7));
    assert_eq!(r.value(), Fe::from_u64(7));
    assert_eq!(offset, 1);
    assert_eq!(region.len(), 1);
    assert_eq!(r.cell(), Some(Cell { region: 0, row: 0, slot: 0 }));
    assert!(all_rows_satisfied(&region));
    let (r, _, _) = run_sum(&[], None);
    assert!(r.value().is_zero());
}

#[test]
fn sum_of_eight_and_nine_terms() {
    let terms: Vec<(u64, u64)> = (1..=9u64).map(|i| (i, 10 * i)).collect();
    let (r, region, offset) = run_sum(&terms[..8], None);
    assert_eq!(r.value(), Fe::from_u64((1..=8u64).map(|i| 10 * i * i).sum()));
    assert_eq!(offset, 3);
    assert_eq!(region.len(), 3);
    assert!(all_rows_satisfied(&region));
    let (r, region, offset) = run_sum(&terms, Some(5));
    assert_eq!(r.value(), Fe::from_u64((1..=9u64).map(|i| 10 * i * i).sum::<u64>() + 5));
    assert_eq!(offset, 4);
    assert_eq!(region.len(), 4);
    assert_eq!(r.cell(), Some(Cell { region: 0, row: 3, slot: 0 }));
    assert!(all_rows_satisfied(&region));
}

#[test]
fn sum_wraps_at_the_modulus() {
    let mut region = Region::new(0);
    let mut chip = LookupAssist::new(Counter { asked: vec![] });
    let mut offset = 0usize;
    let minus_one = Limb::new(None, Fe::one().neg());
    let two = limb(2);
    // -1 * 3 + 2 * 5 + 1 = 8
    let inputs = vec![(&minus_one, Fe::from_u64(3)), (&two, Fe::from_u64(5))];
    let r = gate()
        .sum_with_constant(&mut region, &mut chip, &mut offset, inputs, Some(Fe::one()))
        .unwrap();
    assert_eq!(r.value(), Fe::from_u64(8));
    assert!(all_rows_satisfied(&region));
}

#[test]
fn sum_ties_its_inputs_and_refuses_a_taken_offset() {
    let mut region = Region::new(0);
    let mut chip = LookupAssist::new(Counter { asked: vec![] });
    let mut offset = 0usize;
    let g = gate();
    let a = g.assign_constant(&mut region, &mut chip, &mut offset, &Fe::from_u64(3)).unwrap();
    let inputs = vec![(&a, Fe::from_u64(2)), (&a, Fe::from_u64(5))];
    let r = g.sum_with_constant(&mut region, &mut chip, &mut offset, inputs, None).unwrap();
    assert_eq!(r.value(), Fe::from_u64(21));
    assert_eq!(region.copies_len(), 2);
    assert_eq!(region.copy(0), (Cell { region: 0, row: 1, slot: 0 }, a.cell().unwrap()));
    assert_eq!(region.copy(1), (Cell { region: 0, row: 1, slot: 1 }, a.cell().unwrap()));
    let mut taken = 1usize;
    let inputs = vec![(&a, Fe::from_u64(2))];
    let r = g.sum_with_constant(&mut region, &mut chip, &mut taken, inputs, None);
    assert_eq!(r.err(), Some(Error::CellOccupied));
    assert_eq!(taken, 1);
    assert_eq!(region.len(), 2);
}

fn run_decompose(value: Fe, limbsize: usize) -> (Result<(), Error>, Vec<Limb>, Region, usize) {
    let mut region = Region::new(0);
    let mut chip = LookupAssist::new(Counter { asked: vec![] });
    let mut offset = 0usize;
    let mut bits = vec![];
    let whole = Limb::new(None, value);
    let r = gate().decompose_limb(&mut region, &mut chip, &mut offset, &whole, &mut bits, limbsize);
    assert!(chip.chip().asked.is_empty());
    (r, bits, region, offset)
}

fn values_of(bits: &[Limb]) -> Vec<u64> {
    bits.iter().map(|b| if b.value().is_zero() { 0 } else { 1 }).collect()
}

#[test]
fn decompose_eleven_into_eight_bits() {
    let (r, bits, region, offset) = run_decompose(Fe::from_u64(0b00001011), 8);
    assert_eq!(r, Ok(()));
    assert_eq!(values_of(&bits), vec![0, 0, 0, 0, 1, 0, 1, 1]);
    for b in bits.iter() {
        assert!(b.value().is_zero() || b.value() == Fe::one());
    }
    assert_eq!(offset, 3);
    assert_eq!(region.len(), 3);
    assert!(all_rows_satisfied(&region));
    // what is rebuilt: 0, then 0, then 11
    assert_eq!(region.row(0).witness(4), Fe::zero());
    assert_eq!(region.row(0).witness(5), Fe::zero());
    assert_eq!(region.row(1).witness(4), Fe::zero());
    assert_eq!(region.row(1).witness(5), Fe::from_u64(11));
    assert_eq!(region.row(2).witness(0), Fe::from_u64(11));
    assert_eq!(region.row(2).witness(4), Fe::from_u64(11));
    // each bit is anchored in the row of its four bits
    for (i, b) in bits.iter().enumerate() {
        assert_eq!(b.cell(), Some(Cell { region: 0, row: i / 4, slot: i % 4 }));
    }
    let expected = [8u64, 4, 2, 1, 16];
    for place in 0..5 {
        assert_eq!(region.row(1).coefficient(place), Fe::from_u64(expected[place]));
    }
    assert_eq!(region.row(1).coefficient(5), Fe::one().neg());
}

#[test]
fn decompose_leaves_out_the_high_bits() {
    let (r, bits, region, offset) = run_decompose(Fe::from_u64(0x3a5), 8);
    // the bits are those of 0xa5; the binding row is refused
    assert_eq!(r, Err(Error::IdentityViolation));
    assert_eq!(values_of(&bits), vec![1, 0, 1, 0, 0, 1, 0, 1]);
    assert_eq!(region.len(), 2);
    assert_eq!(offset, 2);
    assert_eq!(region.row(1).witness(5), Fe::from_u64(0xa5));
    assert!(all_rows_satisfied(&region));
}

#[test]
fn decompose_a_wide_value() {
    let value = Fe::from_u128(0x8000_0000_0000_0001_0000_0000_0000_00f0);
    let (r, bits, region, offset) = run_decompose(value, 128);
    assert_eq!(r, Ok(()));
    assert_eq!(bits.len(), 128);
    let got = values_of(&bits);
    for (i, b) in got.iter().enumerate() {
        let expected = if i == 0 || i == 63 || (120..124).contains(&i) { 1 } else { 0 };
        assert_eq!(*b, expected, "bit {}", i);
    }
    assert_eq!(offset, 33);
    assert_eq!(region.len(), 33);
    assert_eq!(region.row(31).witness(5), value);
    assert!(all_rows_satisfied(&region));
}

#[test]
fn decompose_pads_beyond_the_field() {
    let value = Fe::one().neg();
    let (r, bits, region, _) = run_decompose(value, 260);
    assert_eq!(r, Ok(()));
    assert_eq!(bits.len(), 260);
    let got = values_of(&bits);
    // 260 bits: five of padding, then the 255 bits of the modulus less one
    assert_eq!(&got[..5], &[0, 0, 0, 0, 0]);
    assert_eq!(got[5], 1);
    assert_eq!(got[259], 0);
    assert_eq!(region.len(), 66);
    assert_eq!(region.row(64).witness(5), value);
    assert!(all_rows_satisfied(&region));
}

#[test]
fn decompose_into_no_bits() {
    let (r, bits, region, offset) = run_decompose(Fe::zero(), 0);
    assert_eq!(r, Ok(()));
    assert!(bits.is_empty());
    assert_eq!(region.len(), 1);
    assert_eq!(offset, 1);
    let (r, bits, region, offset) = run_decompose(Fe::one(), 0);
    assert_eq!(r, Err(Error::IdentityViolation));
    assert!(bits.is_empty());
    assert_eq!(region.len(), 0);
    assert_eq!(offset, 0);
}

#[test]
fn decompose_refuses_a_width_that_is_no_multiple_of_four() {
    for limbsize in [1usize, 2, 3, 6, 9, 255] {
        let (r, bits, region, offset) = run_decompose(Fe::from_u64(1), limbsize);
        assert_eq!(r, Err(Error::LimbSize));
        assert!(bits.is_empty());
        assert_eq!(region.len(), 0);
        assert_eq!(offset, 0);
    }
}

#[test]
fn decompose_refuses_a_taken_offset_and_keeps_earlier_limbs() {
    let mut region = Region::new(2);
    let mut chip = LookupAssist::new(Counter { asked: vec![] });
    let mut offset = 0usize;
    let g = gate();
    let whole = g.assign_constant(&mut region, &mut chip, &mut offset, &Fe::from_u64(9)).unwrap();
    let mut bits = vec![limb(1)];
    let mut taken = 0usize;
    let r = g.decompose_limb(&mut region, &mut chip, &mut taken, &whole, &mut bits, 4);
    assert_eq!(r, Err(Error::CellOccupied));
    assert_eq!(bits.len(), 1);
    assert_eq!(taken, 0);
    let r = g.decompose_limb(&mut region, &mut chip, &mut offset, &whole, &mut bits, 4);
    assert_eq!(r, Ok(()));
    assert_eq!(values_of(&bits), vec![1, 1, 0, 0, 1]);
    assert_eq!(bits[1].cell(), Some(Cell { region: 2, row: 1, slot: 0 }));
    assert_eq!(offset, 3);
    // the binding row ties the value to the cell that it came from
    assert_eq!(region.copies_len(), 1);
    assert_eq!(region.copy(0), (Cell { region: 2, row: 2, slot: 0 }, whole.cell().unwrap()));
}
