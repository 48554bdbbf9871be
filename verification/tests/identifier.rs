use thermo_species::identifier::clean_identifier;

#[test]
fn clean_identifier_spells_out_charges() {
    assert_eq!(clean_identifier("Ag+"), "AgPlus");
    assert_eq!(clean_identifier("OH-"), "OHNeg");
    assert_eq!(clean_identifier("e-"), "E");
}

#[test]
fn clean_identifier_turns_punctuation_into_underscores() {
    assert_eq!(clean_identifier("H2O(L)"), "H2O_L");
    assert_eq!(clean_identifier("C2H4,cyclo-"), "C2H4_cycloNeg");
    assert_eq!(clean_identifier("(HCOOH)2"), "HCOOH_2");
    assert_eq!(clean_identifier("CH3CO,acetyl"), "CH3CO_acetyl");
    assert_eq!(clean_identifier("N2O4(cr)"), "N2O4_cr");
    assert_eq!(clean_identifier("C6H5O,phenoxy"), "C6H5O_phenoxy");
}

#[test]
fn clean_identifier_names_primes() {
    assert_eq!(clean_identifier("HO2'"), "HO2Prime");
    assert_eq!(clean_identifier("Jet-A(L)"), "JetNegA_L");
    assert_eq!(clean_identifier("H2O"), "H2O");
    assert_eq!(clean_identifier(""), "");
    assert_eq!(clean_identifier("e-e"), "eNege");
}

#[test]
fn plain_names_keep_every_character() {
    assert_eq!(clean_identifier("_CH4_"), "CH4");
    assert_eq!(clean_identifier("__x__"), "_x_");
    assert_eq!(clean_identifier("Al2O3"), "Al2O3");
}
