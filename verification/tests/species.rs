use std::str::FromStr;
use thermo_species::species::{ParseSpeciesError, Species};
use thermo_species::{dfd_propellant, fusion_propellant};

#[test]
fn test_from_str() {
    // Run time dynamic Species
    assert_eq!(Species::from_str("H2O").unwrap(), Species::H2O);

    println!("{}", Species::from_str("CH4").unwrap().symbol());
}

#[test]
fn from_str_refuses_unknown_symbols() {
    assert_eq!(Species::from_str("H2O2"), Err(ParseSpeciesError));
    assert_eq!(Species::from_str("h2o"), Err(ParseSpeciesError));
    assert_eq!(Species::from_str(""), Err(ParseSpeciesError));
}

#[test]
fn every_symbol_reads_back() {
    for s in Species::all() {
        assert_eq!(Species::from_str(&s.symbol()).unwrap(), s);
        assert_eq!(Species::from_symbol(&s.symbol()), Some(s));
    }
}

#[test]
fn all_lists_each_species_once() {
    let all = Species::all();
    assert_eq!(all.len(), 19);
    for (i, a) in all.iter().enumerate() {
        for b in all.iter().skip(i + 1) {
            assert_ne!(a, b);
        }
    }
    assert_eq!(all[0], Species::H);
    assert_eq!(all[18], Species::OHNeg);
}

#[test]
fn symbols_of_ions_and_electron() {
    assert_eq!(Species::E.symbol(), "e-");
    assert_eq!(Species::HPlus.symbol(), "H+");
    assert_eq!(Species::OHNeg.symbol(), "OH-");
}

#[test]
fn charged_species_carry_electrons() {
    for s in Species::all() {
        let has_electrons = s.constituents().iter().any(|(n, e)| *e == Species::E && *n != 0);
        assert_eq!(s.is_charged(), has_electrons, "{}", s.symbol());
    }
    assert!(Species::OHNeg.is_charged());
    assert!(!Species::OH.is_charged());
}

#[test]
fn constituents_count_atoms() {
    assert_eq!(Species::H2O.constituents(), vec![(2, Species::H), (1, Species::O)]);
    assert_eq!(Species::CH4.constituents(), vec![(1, Species::C), (4, Species::H)]);
    assert_eq!(Species::CPlus.constituents(), vec![(1, Species::C), (-1, Species::E)]);
    assert_eq!(
        Species::OHNeg.constituents(),
        vec![(1, Species::O), (1, Species::H), (1, Species::E)]
    );
}

#[test]
fn propellant_symbols() {
    assert_eq!(dfd_propellant::Species::CO.symbol(), "CO");
    assert_eq!(dfd_propellant::Species::H2.symbol(), "H2");
    assert_eq!(fusion_propellant::Species::N2.symbol(), "N2");
    assert_eq!(fusion_propellant::Species::N.symbol(), "N");
}
