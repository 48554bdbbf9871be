use thermo_species::parsing::RecordError;
use thermo_species::products::{find_record, read_products};

fn file(rows: &[&str]) -> Vec<String> {
    rows.iter().map(|r| r.to_string()).collect()
}

const HEADER: [&str; 3] = [
    "! NASA thermodynamic data",
    "thermo",
    "    200.000   1000.000   6000.000  20000.000   9/09/04",
];

const ELECTRON: [&str; 5] = [
    "e-                Electron gas.  Ref-Elements. ",
    " 1 g12/98 E   1.00    0.00    0.00    0.00    0.00 0    0.0005486          0.000",
    "    298.150   6000.0007 -2.0 -1.0  0.0  1.0  2.0  3.0  4.0  0.0         6197.428",
    " 0.000000000D+00 0.000000000D+00 2.500000000D+00 0.000000000D+00 0.000000000D+00",
    " 0.000000000D+00 0.000000000D+00                -7.453750000D+02-1.172081224D+01",
];

const SILVER_ION: [&str; 5] = [
    "Ag+               Ion.",
    " 1 g10/97 AG  1.00E  -1.00    0.00    0.00    0.00 0  107.8676514    1022312.720",
    "    298.150   6000.0007 -2.0 -1.0  0.0  1.0  2.0  3.0  4.0  0.0         6197.428",
    " 0.000000000D+00 0.000000000D+00 2.500000000D+00 0.000000000D+00 0.000000000D+00",
    " 0.000000000D+00 0.000000000D+00                 1.221900000D+05 8.038230000D+00",
];

fn sample() -> Vec<String> {
    let mut rows = file(&HEADER);
    rows.extend(file(&ELECTRON));
    rows.push("! a comment between records".to_string());
    rows.extend(file(&SILVER_ION));
    rows.push("END PRODUCTS".to_string());
    rows.push("not a record".to_string());
    rows
}

#[test]
fn reads_every_product_up_to_the_end_marker() {
    let entries = read_products(&sample()).unwrap();
    let names: Vec<&str> = entries.iter().map(|e| e.identifier.as_str()).collect();
    assert_eq!(names, vec!["E", "AgPlus"]);
    assert_eq!(entries[1].metadata.constituents.len(), 2);
    assert_eq!(entries[1].metadata.constituents[1].element, "E");
}

#[test]
fn a_file_without_the_electron_has_no_products() {
    let rows = file(&HEADER);
    assert_eq!(read_products(&rows).unwrap_err(), RecordError::MissingLine);
}

#[test]
fn a_file_without_the_end_marker_is_refused() {
    let mut rows = sample();
    rows.truncate(rows.len() - 2);
    assert_eq!(read_products(&rows).unwrap_err(), RecordError::MissingLine);
}

#[test]
fn a_bad_record_stops_the_reading() {
    let mut rows = sample();
    rows[4] = " x g12/98 E   1.00    0.00    0.00    0.00    0.00 0    0.0005486          0.000"
        .to_string();
    assert_eq!(read_products(&rows).unwrap_err(), RecordError::TemperatureIntervals);
}

#[test]
fn records_are_found_by_their_species_name() {
    let entries = read_products(&sample()).unwrap();
    assert_eq!(find_record(&entries, "Ag+"), Some(1));
    assert_eq!(find_record(&entries, "e-"), Some(0));
    assert_eq!(find_record(&entries, "AgPlus"), None);
    assert_eq!(find_record(&entries, "Ag"), None);
    assert_eq!(find_record(&[], "e-"), None);
}
