use thermo_species::equilibrium::{reactants_have_ions, select_products, stoichiometry};
use thermo_species::species::Species;

#[test]
fn h2_o2_products_and_elements() {
    let set = select_products(&[Species::H2, Species::O2], false, None);
    assert_eq!(
        set.species,
        vec![Species::H, Species::H2, Species::O, Species::H2O, Species::OH, Species::O2]
    );
    assert_eq!(set.elements, vec![Species::H, Species::O]);
}

#[test]
fn ions_add_the_electron_last() {
    let set = select_products(&[Species::H2], true, None);
    assert_eq!(set.species, vec![Species::H, Species::H2, Species::E, Species::HPlus]);
    assert_eq!(set.elements, vec![Species::H, Species::E]);
}

#[test]
fn only_restricts_the_products() {
    let only = [Species::H2O, Species::H2, Species::O2, Species::CO];
    let set = select_products(&[Species::H2, Species::O2], false, Some(&only));
    assert_eq!(set.species, vec![Species::H2, Species::H2O, Species::O2]);
}

#[test]
fn elements_come_in_declaration_order() {
    let set = select_products(&[Species::NH3, Species::CO2], false, None);
    assert_eq!(set.elements, vec![Species::H, Species::C, Species::O, Species::N]);
    assert_eq!(set.species.len(), 13);
}

#[test]
fn ionic_reactants_are_detected() {
    assert!(reactants_have_ions(&[Species::H2, Species::HPlus]));
    assert!(!reactants_have_ions(&[Species::H2, Species::O2]));
}

#[test]
fn stoichiometry_counts_atoms_per_element() {
    let species = [Species::H2O, Species::OH, Species::HPlus, Species::E];
    let elements = [Species::H, Species::O, Species::E];
    let g = stoichiometry(&species, &elements);
    assert_eq!(g, vec![vec![2, 1, 0], vec![1, 1, 0], vec![1, 0, -1], vec![0, 0, 1]]);
}
