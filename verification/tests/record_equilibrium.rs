use thermo_species::parsing::{process_entry, Entry};
use thermo_species::record_equilibrium::{
    reactant_records_have_ions, record_stoichiometry, select_record_products,
};
use thermo_species::numeral::{Decimal, NumberKind};

const INTERVAL: [&str; 3] = [
    "    298.150   6000.0007 -2.0 -1.0  0.0  1.0  2.0  3.0  4.0  0.0         6197.428",
    " 0.000000000D+00 0.000000000D+00 2.500000000D+00 0.000000000D+00 0.000000000D+00",
    " 0.000000000D+00 0.000000000D+00                -7.453750000D+02-1.172081224D+01",
];

fn record(name: &str, elements: &[(&str, &str)], phase: i32) -> Entry {
    let mut slots = String::new();
    for k in 0..5 {
        match elements.get(k) {
            Some((e, n)) => slots += &format!("{:<2}{:>6}", e, n),
            None => slots += "    0.00",
        }
    }
    let metadata = format!("{:>2}{:8}{}{:>2}{:>13}{:>15}", 1, " g12/98 ", slots, phase, "1.0", "0.0");
    assert_eq!(metadata.len(), 80);
    let mut lines = vec![format!("{}  test record", name), metadata];
    lines.extend(INTERVAL.iter().map(|l| l.to_string()));
    process_entry(&lines).unwrap()
}

fn table() -> Vec<Entry> {
    vec![
        record("e-", &[("E", "1.00")], 0),
        record("C", &[("C", "1.00")], 0),
        record("C+", &[("C", "1.00"), ("E", "-1.00")], 0),
        record("CO", &[("C", "1.00"), ("O", "1.00")], 0),
        record("CO2", &[("C", "1.00"), ("O", "2.00")], 0),
        record("H2", &[("H", "2.00")], 0),
        record("O", &[("O", "1.00")], 0),
        record("O2", &[("O", "2.00")], 0),
        record("C(gr)", &[("C", "1.00")], 1),
        record("H2O(L)", &[("H", "2.00"), ("O", "1.00")], 2),
    ]
}

#[test]
fn condensed_products_follow_the_gas_ones() {
    let records = table();
    let set = select_record_products(&records, &[3, 7], true, false, None);
    assert_eq!(set.species, vec![1, 3, 4, 6, 7, 8]);
    assert_eq!(set.gas_count, 5);
    assert_eq!(set.elements, vec!["C".to_string(), "O".to_string()]);
}

#[test]
fn condensed_products_can_be_left_out() {
    let records = table();
    let set = select_record_products(&records, &[3, 7], false, false, None);
    assert_eq!(set.species, vec![1, 3, 4, 6, 7]);
    assert_eq!(set.gas_count, 5);
}

#[test]
fn ions_bring_the_electron_last() {
    let records = table();
    let set = select_record_products(&records, &[3], true, true, None);
    assert_eq!(set.species, vec![0, 1, 2, 3, 4, 6, 7, 8]);
    assert_eq!(
        set.elements,
        vec!["C".to_string(), "O".to_string(), "E".to_string()]
    );
}

#[test]
fn only_restricts_record_products() {
    let records = table();
    let only = [4usize, 8, 5];
    let set = select_record_products(&records, &[3, 7], true, false, Some(&only));
    assert_eq!(set.species, vec![4, 8]);
    assert_eq!(set.gas_count, 1);
}

#[test]
fn elements_are_sorted() {
    let records = table();
    let set = select_record_products(&records, &[9, 5, 4], true, false, None);
    assert_eq!(
        set.elements,
        vec!["C".to_string(), "H".to_string(), "O".to_string()]
    );
    assert_eq!(set.species, vec![1, 3, 4, 5, 6, 7, 8, 9]);
    assert_eq!(set.gas_count, 6);
}

#[test]
fn ionic_reactant_records_are_detected() {
    let records = table();
    assert!(reactant_records_have_ions(&records, &[2]));
    assert!(!reactant_records_have_ions(&records, &[3, 7]));
}

#[test]
fn record_stoichiometry_reads_the_listed_amounts() {
    let records = table();
    let elements = vec!["C".to_string(), "O".to_string(), "E".to_string()];
    let g = record_stoichiometry(&records, &[4, 2, 8], &elements);
    let one = Decimal { kind: NumberKind::Finite, negative: false, mantissa: 100, exponent: -2 };
    let two = Decimal { kind: NumberKind::Finite, negative: false, mantissa: 200, exponent: -2 };
    let zero = Decimal { kind: NumberKind::Finite, negative: false, mantissa: 0, exponent: 0 };
    let minus_one = Decimal { kind: NumberKind::Finite, negative: true, mantissa: 100, exponent: -2 };
    assert_eq!(g[0], vec![one, two, zero]);
    assert_eq!(g[1], vec![one, zero, minus_one]);
    assert_eq!(g[2], vec![one, zero, zero]);
}

#[test]
fn records_are_found_by_symbol() {
    let records = table();
    assert_eq!(thermo_species::products::find_record(&records, "H2O(L)"), Some(9));
    assert_eq!(thermo_species::products::find_record(&records, "C(gr)"), Some(8));
    assert_eq!(thermo_species::products::find_record(&records, "H2O"), None);
}
