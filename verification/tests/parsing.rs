use thermo_species::numeral::{Decimal, NumberKind};
use thermo_species::parsing::{
    parse_metadata, parse_temperature_data, process_entry, RecordError,
};

fn to_f64(d: Decimal) -> f64 {
    let sign = if d.negative { "-" } else { "" };
    format!("{}{}e{}", sign, d.mantissa, d.exponent).parse::<f64>().unwrap()
}

fn lines(rows: &[&str]) -> Vec<String> {
    rows.iter().map(|r| r.to_string()).collect()
}

#[test]
fn test_parse_metadata() {
    // Start with a simple single element species.
    let sample =
        " 3 g 6/97 H   1.00    0.00    0.00    0.00    0.00 0    1.0079400     217998.828";
    let m = parse_metadata(sample).unwrap();
    assert_eq!(m.temperature_intervals, 3, "Temperature intervals should equal 3");
    assert_eq!(m.constituents.len(), 1, "Should have 1 constituent");
    let constituents: Vec<(f64, String)> =
        m.constituents.iter().map(|c| (to_f64(c.moles), c.element.clone())).collect();
    let expected_constituents = vec![(1.0, "H".to_string())];
    assert_eq!(constituents, expected_constituents, "Wrong constituents",);
    assert_eq!(m.phase == 0, true, "is_gas should be true");
    assert_eq!(to_f64(m.mw), 1.0079400, "mw should equal expected");
    assert_eq!(
        to_f64(m.h_formation),
        217998.828,
        "std_heat_of_formation should equal expected"
    );

    // Try a multi element species.
    let sample =
        " 2 tpis91 C   1.00H   1.00CL  2.00BR  1.00    0.00 0  163.8286400     -45000.000";
    let m = parse_metadata(sample).unwrap();
    assert_eq!(m.temperature_intervals, 2, "Temperature intervals should equal 2");
    assert_eq!(m.constituents.len(), 4, "Should have 4 constituents");
    let constituents: Vec<(f64, String)> =
        m.constituents.iter().map(|c| (to_f64(c.moles), c.element.clone())).collect();
    let expected_constituents = vec![
        (1.0, "C".to_string()),
        (1.0, "H".to_string()),
        (2.0, "CL".to_string()),
        (1.0, "BR".to_string()),
    ];
    assert_eq!(constituents, expected_constituents, "Wrong constituents",);
    assert_eq!(m.phase == 0, true, "is_gas should be true");
    assert_eq!(to_f64(m.mw), 163.8286400, "mw should equal expected");
    assert_eq!(
        to_f64(m.h_formation),
        -45000.000,
        "std_heat_of_formation should equal expected"
    );

    // Try a different phase.
    let sample =
        " 1 coda89 AG  1.00    0.00    0.00    0.00    0.00 1  107.8682000          0.000";
    let m = parse_metadata(sample).unwrap();
    assert_eq!(m.temperature_intervals, 1, "Temperature intervals should equal 1");
    assert_eq!(m.constituents.len(), 1, "Should have 1 constituent");
    let constituents: Vec<(f64, String)> =
        m.constituents.iter().map(|c| (to_f64(c.moles), c.element.clone())).collect();
    let expected_constituents = vec![(1.0, "AG".to_string())];
    assert_eq!(constituents, expected_constituents, "Wrong constituents",);
    assert_eq!(m.phase == 0, false, "is_gas should be false");
    assert_eq!(to_f64(m.mw), 107.8682000, "mw should equal expected");
    assert_eq!(
        to_f64(m.h_formation),
        0.000,
        "std_heat_of_formation should equal expected"
    );
}

#[test]
fn test_parse_temperature_data() {
    // Try scenario where there is a gap between a and b coefficients.
    let sample = lines(&[
        "    298.150   1000.0007 -2.0 -1.0  0.0  1.0  2.0  3.0  4.0  0.0         6197.428",
        " 0.000000000D+00 0.000000000D+00 2.500000000D+00 0.000000000D+00 0.000000000D+00",
        " 0.000000000D+00 0.000000000D+00                -7.453750000D+02-1.172081224D+01",
    ]);
    let t = parse_temperature_data(&sample).unwrap();

    assert_eq!(to_f64(t.low), 298.150, "Wrong temperature low");
    assert_eq!(to_f64(t.high), 1000.000, "Wrong temperature high");
    let coefficients: Vec<f64> = t.coefficients.iter().map(|c| to_f64(*c)).collect();
    let expected_coefficients = vec![
        0.000000000e+00,
        0.000000000e+00,
        2.500000000e+00,
        0.000000000e+00,
        0.000000000e+00,
        0.000000000e+00,
        0.000000000e+00,
        -7.453750000e+02,
        -1.172081224e+01,
    ];
    assert_eq!(coefficients, expected_coefficients, "Wrong coefficients");

    // Try scenario where there is a zero number between a and b coefficients.
    let sample = lines(&[
        "    300.000   1000.0007 -2.0 -1.0  0.0  1.0  2.0  3.0  4.0  0.0        10027.417",
        " 3.218921730D+04-2.877601815D+02 4.203583820D+00 3.455405960D-03-6.746193340D-06",
        " 7.654571640D-09-2.870328419D-12 0.000000000D+00 4.733624710D+04-2.143628603D+00",
    ]);
    let t = parse_temperature_data(&sample).unwrap();

    assert_eq!(to_f64(t.low), 300.000, "Wrong temperature low");
    assert_eq!(to_f64(t.high), 1000.000, "Wrong temperature high");
    let coefficients: Vec<f64> = t.coefficients.iter().map(|c| to_f64(*c)).collect();
    let expected_coefficients = vec![
        3.218921730e+04,
        -2.877601815e+02,
        4.203583820e+00,
        3.455405960e-03,
        -6.746193340e-06,
        7.654571640e-09,
        -2.870328419e-12,
        4.733624710e+04,
        -2.143628603e+00,
    ];
    assert_eq!(coefficients, expected_coefficients, "Wrong coefficients");
}

const ELECTRON: [&str; 5] = [
    "e-                Electron gas.  Ref-Elements. ",
    " 1 g12/98 E   1.00    0.00    0.00    0.00    0.00 0    0.0005486          0.000",
    "    298.150   6000.0007 -2.0 -1.0  0.0  1.0  2.0  3.0  4.0  0.0         6197.428",
    " 0.000000000D+00 0.000000000D+00 2.500000000D+00 0.000000000D+00 0.000000000D+00",
    " 0.000000000D+00 0.000000000D+00                -7.453750000D+02-1.172081224D+01",
];

#[test]
fn process_entry_reads_a_whole_record() {
    let record = lines(&ELECTRON);
    let e = process_entry(&record).unwrap();
    assert_eq!(e.symbol, "e-");
    assert_eq!(e.identifier, "E");
    assert_eq!(e.metadata.temperature_intervals, 1);
    assert_eq!(e.temperature_data.len(), 1);
    assert_eq!(to_f64(e.metadata.mw), 0.0005486);
    assert_eq!(to_f64(e.temperature_data[0].high), 6000.0);
    assert_eq!(to_f64(e.temperature_data[0].coefficients[7]), -745.375);
}

#[test]
fn process_entry_cleans_an_ion_name() {
    let mut record = lines(&ELECTRON);
    record[0] = "Ag+               Ion. Ref-Elements.".to_string();
    let e = process_entry(&record).unwrap();
    assert_eq!(e.symbol, "Ag+");
    assert_eq!(e.identifier, "AgPlus");
}

#[test]
fn process_entry_reports_missing_lines() {
    let record = lines(&ELECTRON[..4]);
    assert_eq!(process_entry(&record).unwrap_err(), RecordError::MissingLine);
    let record = lines(&ELECTRON[..1]);
    assert_eq!(process_entry(&record).unwrap_err(), RecordError::MissingLine);
    let record: Vec<String> = vec![];
    assert_eq!(process_entry(&record).unwrap_err(), RecordError::MissingLine);
}

#[test]
fn process_entry_reads_every_interval() {
    let mut record = lines(&ELECTRON);
    record[1] = " 2 g12/98 E   1.00    0.00    0.00    0.00    0.00 0    0.0005486          0.000"
        .to_string();
    assert_eq!(process_entry(&record).unwrap_err(), RecordError::MissingLine);
    record.extend(lines(&ELECTRON[2..]));
    let e = process_entry(&record).unwrap();
    assert_eq!(e.temperature_data.len(), 2);
}

#[test]
fn metadata_errors_name_the_field() {
    let good = " 3 g 6/97 H   1.00    0.00    0.00    0.00    0.00 0    1.0079400     217998.828";
    assert!(parse_metadata(good).is_ok());
    assert_eq!(parse_metadata(" ").unwrap_err(), RecordError::LineTooShort);
    assert_eq!(parse_metadata(" x").unwrap_err(), RecordError::TemperatureIntervals);
    assert_eq!(parse_metadata("-1").unwrap_err(), RecordError::TemperatureIntervals);
    assert_eq!(parse_metadata(" 3 g 6/97 H   1.00").unwrap_err(), RecordError::LineTooShort);
    let bad_moles =
        " 3 g 6/97 H   1.00O   1.x0    0.00    0.00    0.00 0    1.0079400     217998.828";
    assert_eq!(parse_metadata(bad_moles).unwrap_err(), RecordError::ConstituentMoles(1));
    let bad_phase =
        " 3 g 6/97 H   1.00    0.00    0.00    0.00    0.00 x    1.0079400     217998.828";
    assert_eq!(parse_metadata(bad_phase).unwrap_err(), RecordError::Phase);
    let bad_mw =
        " 3 g 6/97 H   1.00    0.00    0.00    0.00    0.00 0    1.00794.0     217998.828";
    assert_eq!(parse_metadata(bad_mw).unwrap_err(), RecordError::MolecularWeight);
    let bad_hf =
        " 3 g 6/97 H   1.00    0.00    0.00    0.00    0.00 0    1.0079400     2179e8.8e8";
    assert_eq!(parse_metadata(bad_hf).unwrap_err(), RecordError::HeatOfFormation);
    assert_eq!(parse_metadata(&good[..70]).unwrap_err(), RecordError::LineTooShort);
    let non_ascii =
        " 3 g 6/97 H   1.00    0.00    0.00    0.00    0.00 0    1.0079400     217998.82é";
    assert_eq!(parse_metadata(non_ascii).unwrap_err(), RecordError::SplitCharacter);
}

#[test]
fn negative_phase_flags_wrap_like_a_byte_cast() {
    let sample =
        " 1 coda89 AG  1.00    0.00    0.00    0.00    0.00-1  107.8682000          0.000";
    assert_eq!(parse_metadata(sample).unwrap().phase, 255);
}

#[test]
fn temperature_errors_name_the_field() {
    let mut rows = lines(&ELECTRON[2..]);
    rows[0] = "    298.1x0   6000.000".to_string();
    assert_eq!(parse_temperature_data(&rows).unwrap_err(), RecordError::TemperatureLow);
    rows[0] = "    298.150   6000.0x0".to_string();
    assert_eq!(parse_temperature_data(&rows).unwrap_err(), RecordError::TemperatureHigh);
    rows[0] = "    298.150".to_string();
    assert_eq!(parse_temperature_data(&rows).unwrap_err(), RecordError::LineTooShort);
    let mut rows = lines(&ELECTRON[2..]);
    rows[1] = " 0.000000000D+00 0.000000000D+00 2.50000000xD+00 0.000000000D+00 0.000000000D+00"
        .to_string();
    assert_eq!(parse_temperature_data(&rows).unwrap_err(), RecordError::Coefficient(2));
    let mut rows = lines(&ELECTRON[2..]);
    rows[2] = " 0.000000000D+00 0.000000000D+00                -7.453750000D+02-1.172081224x+01"
        .to_string();
    assert_eq!(parse_temperature_data(&rows).unwrap_err(), RecordError::Coefficient(8));
    let rows = lines(&ELECTRON[2..4]);
    assert_eq!(parse_temperature_data(&rows).unwrap_err(), RecordError::MissingLine);
}

#[test]
fn lowercase_fortran_exponents_read_like_uppercase() {
    let upper = lines(&[
        "    298.150   1000.0007 -2.0 -1.0  0.0  1.0  2.0  3.0  4.0  0.0         6197.428",
        " 0.000000000D+00 0.000000000D+00 2.500000000D+00 0.000000000D+00 0.000000000D+00",
        " 0.000000000D+00 0.000000000D+00                -7.453750000D+02-1.172081224D+01",
    ]);
    let lower: Vec<String> = upper.iter().map(|l| l.replace('D', "d")).collect();
    let a = parse_temperature_data(&upper).unwrap();
    let b = parse_temperature_data(&lower).unwrap();
    assert_eq!(a.coefficients, b.coefficients);
    let coefficients: Vec<f64> = b.coefficients.iter().map(|c| to_f64(*c)).collect();
    assert_eq!(coefficients[2], 2.5);
    assert_eq!(coefficients[7], -745.375);
    assert_eq!(coefficients[8], -11.72081224);
}

#[test]
fn columns_are_bytes_and_only_read_columns_matter() {
    // A character of several bytes after column 80 is never read.
    let tail = " 3 g 6/97 H   1.00    0.00    0.00    0.00    0.00 0    1.0079400     217998.828 é";
    let m = parse_metadata(tail).unwrap();
    assert_eq!(m.temperature_intervals, 3);
    assert_eq!(to_f64(m.h_formation), 217998.828);
    // In the unread columns 3-10 it takes two bytes, so the fields after
    // it stay where the bytes put them.
    let date = " 3 g6/9é H   1.00    0.00    0.00    0.00    0.00 0    1.0079400     217998.828";
    let m = parse_metadata(date).unwrap();
    assert_eq!(m.constituents[0].element, "H");
    assert_eq!(to_f64(m.mw), 1.0079400);
    assert_eq!(to_f64(m.h_formation), 217998.828);
    // A field bound inside such a character is refused.
    let split = " 3 g 6/97é H  1.00    0.00    0.00    0.00    0.00 0    1.0079400     217998.82";
    assert_eq!(parse_metadata(split).unwrap_err(), RecordError::SplitCharacter);
    let mut rows = lines(&ELECTRON[2..]);
    rows[0] = "    298.150   6000.0007 -2.0 -1.0  0.0  1.0  2.0  3.0  4.0  0.0  é      6197.428"
        .to_string();
    assert!(parse_temperature_data(&rows).is_ok());
    rows[0] = "    298.15é   6000.000".to_string();
    assert_eq!(parse_temperature_data(&rows).unwrap_err(), RecordError::SplitCharacter);
}

#[test]
fn non_finite_fields_are_read() {
    let sample =
        " 3 g 6/97 H   1.00    0.00    0.00    0.00    0.00 0          inf           -NaN";
    let m = parse_metadata(sample).unwrap();
    assert_eq!(m.mw.kind, NumberKind::Infinite);
    assert!(!m.mw.negative);
    assert_eq!(m.h_formation.kind, NumberKind::NotANumber);
    assert!(m.h_formation.negative);
}
