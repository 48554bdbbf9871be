use thermo_species::lexical::text_lt;

#[test]
fn texts_compare_lexicographically() {
    assert!(text_lt("C", "CL"));
    assert!(text_lt("AL", "C"));
    assert!(text_lt("E", "H"));
    assert!(!text_lt("O", "O"));
    assert!(!text_lt("CL", "C"));
    assert!(text_lt("", "A"));
    assert!(!text_lt("", ""));
}
