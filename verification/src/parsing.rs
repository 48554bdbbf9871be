use vstd::prelude::*;
use crate::numeral::{
    Decimal, NumberKind, decimal_is, parse_decimal, parse_integer, spec_parse_decimal, spec_parse_integer,
};
use crate::identifier::{clean_identifier, spec_clean_identifier};
use crate::text::{spec_trim, trim};
use vstd::utf8::{decode_utf8, encode_utf8, is_char_boundary};

verus! {

/// Why a `thermo.inp` record could not be read.
#[derive(Clone, Copy, PartialEq, Eq, Debug, Structural)]
pub enum RecordError {
    /// The record ended before a line it needs.
    MissingLine,
    /// A field's first or last column falls inside a character that takes
    /// more than one byte.
    SplitCharacter,
    /// A line ends before the column of a field it must hold.
    LineTooShort,
    /// The number of temperature intervals (metadata columns 1-2).
    TemperatureIntervals,
    /// The amount of the constituent with this index (0 to 4).
    ConstituentMoles(usize),
    /// The phase flag (metadata columns 51-52).
    Phase,
    /// The molecular weight (metadata columns 53-65).
    MolecularWeight,
    /// The heat of formation (metadata columns 66-80).
    HeatOfFormation,
    /// The lower bound of a temperature interval.
    TemperatureLow,
    /// The upper bound of a temperature interval.
    TemperatureHigh,
    /// The polynomial coefficient with this index (0 to 8).
    Coefficient(usize),
}

/// The columns of a record line are the bytes of its UTF-8 encoding.
pub open spec fn line_bytes(line: Seq<char>) -> Seq<u8> {
    encode_utf8(line)
}

/// Column `k` of `line` starts a character, or is the end of the line.
pub open spec fn on_boundary(line: Seq<char>, k: int) -> bool {
    is_char_boundary(line_bytes(line), k)
}

/// The trimmed text of columns `a..b` (0-based, `b` exclusive) of a line.
pub open spec fn field(line: Seq<char>, a: int, b: int) -> Seq<char> {
    spec_trim(decode_utf8(line_bytes(line).subrange(a, b)))
}

/// What keeps columns `a..b` from being cut out of `line`: the line ends
/// before column `b`, or a bound falls inside a character.
pub open spec fn cut_error(line: Seq<char>, a: int, b: int) -> Option<RecordError> {
    if line_bytes(line).len() < b {
        Some(RecordError::LineTooShort)
    } else if !on_boundary(line, a) || !on_boundary(line, b) {
        Some(RecordError::SplitCharacter)
    } else {
        None
    }
}

/// The decimal written in `text`, if it is one.
pub open spec fn decimal_field(text: Seq<char>) -> Option<(NumberKind, bool, nat, int)> {
    spec_parse_decimal(text)
}

/// A sequence of characters takes at least one byte per character.
proof fn lemma_encode_utf8_len(chars: Seq<char>)
    ensures
        encode_utf8(chars).len() >= chars.len(),
    decreases chars.len(),
{
    if chars.len() > 0 {
        lemma_encode_utf8_len(chars.drop_first());
    }
}

/// Within the first `b` bytes of a valid encoding, the character
/// boundaries are those of the whole.
proof fn lemma_prefix_boundary(bytes: Seq<u8>, a: int, b: int)
    requires
        vstd::utf8::valid_utf8(bytes),
        0 <= a <= b <= bytes.len(),
        is_char_boundary(bytes, a),
        is_char_boundary(bytes, b),
    ensures
        vstd::utf8::valid_utf8(bytes.subrange(0, b)),
        is_char_boundary(bytes.subrange(0, b), a),
{
    let head = bytes.subrange(0, b);
    vstd::utf8::valid_utf8_split(bytes, b);
    if a == b {
        vstd::utf8::is_char_boundary_start_end_of_seq(head);
        assert(head.len() == b);
    } else if a > 0 {
        vstd::utf8::is_char_boundary_iff_not_is_continuation_byte(bytes, a);
        vstd::utf8::is_char_boundary_iff_not_is_continuation_byte(head, a);
        assert(head[a] == bytes[a]);
    }
}

/// The text of columns `a..b` of a line, bounds on character boundaries.
fn columns(line: &str, a: usize, b: usize) -> (r: &str)
    requires
        a <= b <= line_bytes(line@).len(),
        on_boundary(line@, a as int),
        on_boundary(line@, b as int),
    ensures
        r@ == decode_utf8(line_bytes(line@).subrange(a as int, b as int)),
        r@.len() <= b - a,
{
    let ghost bytes = line_bytes(line@);
    proof {
        vstd::utf8::encode_utf8_valid_utf8(line@);
        lemma_prefix_boundary(bytes, a as int, b as int);
    }
    let (head, _) = line.split_at(b);
    let (_, mid) = head.split_at(a);
    proof {
        assert(encode_utf8(mid@) =~= bytes.subrange(a as int, b as int));
        vstd::utf8::encode_utf8_decode_utf8(mid@);
        lemma_encode_utf8_len(mid@);
    }
    mid
}

/// Cuts columns `a..b` out of a line and trims them.
fn cut_field(line: &str, a: usize, b: usize) -> (r: Result<&str, RecordError>)
    requires
        a <= b,
    ensures
        match r {
            Ok(t) => cut_error(line@, a as int, b as int) is None && t@ == field(
                line@,
                a as int,
                b as int,
            ) && t@.len() <= b - a,
            Err(e) => cut_error(line@, a as int, b as int) == Some(e),
        },
{
    let bytes = line.as_bytes();
    let byte_len = bytes.len();
    proof {
        vstd::slice::axiom_spec_len(bytes);
    }
    if byte_len < b {
        return Err(RecordError::LineTooShort);
    }
    if !line.is_char_boundary(a) || !line.is_char_boundary(b) {
        return Err(RecordError::SplitCharacter);
    }
    let s = columns(line, a, b);
    let t = trim(s);
    proof {
        crate::text::lemma_leading_whitespace_bound(s@);
        crate::text::lemma_trailing_whitespace_bound(s@.skip(crate::text::leading_whitespace(s@) as int));
    }
    Ok(t)
}

/// One constituent of a species: an element symbol as written in the
/// record (e.g. `CL`) and how many of its atoms one molecule holds.
#[derive(Debug)]
pub struct ElementAmount {
    pub moles: Decimal,
    pub element: String,
}

/// The metadata line of a species record.
#[derive(Debug)]
pub struct Metadata {
    /// How many temperature intervals (and so coefficient blocks) follow.
    pub temperature_intervals: usize,
    /// The constituents, in the order listed.
    pub constituents: Vec<ElementAmount>,
    /// 0 for a gas; any other value marks a condensed phase.
    pub phase: u8,
    /// Molecular weight [g/mol].
    pub mw: Decimal,
    /// Heat of formation at 298.15 K [J/mol].
    pub h_formation: Decimal,
}

/// Element symbol of constituent slot `i` (0 to 4): columns 11-12 + 8i.
pub open spec fn element_field(line: Seq<char>, i: int) -> Seq<char> {
    field(line, 10 + 8 * i, 12 + 8 * i)
}

/// Amount of constituent slot `i` (0 to 4): columns 13-18 + 8i.
pub open spec fn moles_field(line: Seq<char>, i: int) -> Seq<char> {
    field(line, 12 + 8 * i, 18 + 8 * i)
}

/// How many constituent slots from `i` on are read: slots are read in order
/// up to the first one whose element symbol is blank, and at most 5.
pub open spec fn constituents_from(line: Seq<char>, i: nat) -> nat
    decreases 5 - i,
{
    if i >= 5 || element_field(line, i as int).len() == 0 {
        0
    } else {
        1 + constituents_from(line, i + 1)
    }
}

pub open spec fn constituent_count(line: Seq<char>) -> nat {
    constituents_from(line, 0)
}

/// The first problem met reading constituent slots from `i` on: slot `i`
/// takes columns 11-18 + 8i, its element symbol the first two of them, and
/// a blank symbol ends the list.
pub open spec fn constituents_error_from(line: Seq<char>, i: nat) -> Option<RecordError>
    decreases 5 - i,
{
    if i >= 5 {
        None
    } else if !on_boundary(line, 10 + 8 * i as int) || !on_boundary(line, 12 + 8 * i as int)
        || !on_boundary(line, 18 + 8 * i as int) {
        Some(RecordError::SplitCharacter)
    } else if element_field(line, i as int).len() == 0 {
        None
    } else if decimal_field(moles_field(line, i as int)) is None {
        Some(RecordError::ConstituentMoles(i as usize))
    } else {
        constituents_error_from(line, i + 1)
    }
}

/// What `v as u8` gives for a phase flag `v` of at most two columns.
pub open spec fn phase_value(v: int) -> int {
    if v < 0 {
        v + 256
    } else {
        v
    }
}

/// The first problem met when reading a metadata line, checking its fields
/// left to right; `None` when the line is well formed.
pub open spec fn metadata_error(line: Seq<char>) -> Option<RecordError> {
    if cut_error(line, 0, 2) is Some {
        cut_error(line, 0, 2)
    } else if spec_parse_integer(field(line, 0, 2), false) is None {
        Some(RecordError::TemperatureIntervals)
    } else if cut_error(line, 10, 50) is Some {
        cut_error(line, 10, 50)
    } else if constituents_error_from(line, 0) is Some {
        constituents_error_from(line, 0)
    } else if cut_error(line, 50, 52) is Some {
        cut_error(line, 50, 52)
    } else if spec_parse_integer(field(line, 50, 52), true) is None {
        Some(RecordError::Phase)
    } else if cut_error(line, 52, 65) is Some {
        cut_error(line, 52, 65)
    } else if decimal_field(field(line, 52, 65)) is None {
        Some(RecordError::MolecularWeight)
    } else if cut_error(line, 65, 80) is Some {
        cut_error(line, 65, 80)
    } else if decimal_field(field(line, 65, 80)) is None {
        Some(RecordError::HeatOfFormation)
    } else {
        None
    }
}

/// Constituent `c` is what slot `i` of `line` says.
pub open spec fn element_amount_is(line: Seq<char>, i: int, c: ElementAmount) -> bool {
    &&& c.element@ == element_field(line, i)
    &&& decimal_is(c.moles, decimal_field(moles_field(line, i))->0)
}

/// `m` holds what the well-formed metadata line `line` says.
pub open spec fn metadata_is(line: Seq<char>, m: Metadata) -> bool {
    &&& m.temperature_intervals == spec_parse_integer(field(line, 0, 2), false)->0
    &&& m.constituents@.len() == constituent_count(line)
    &&& forall|i: int|
        0 <= i < m.constituents@.len() ==> element_amount_is(line, i, #[trigger] m.constituents@[i])
    &&& m.phase == phase_value(spec_parse_integer(field(line, 50, 52), true)->0)
    &&& decimal_is(m.mw, decimal_field(field(line, 52, 65))->0)
    &&& decimal_is(m.h_formation, decimal_field(field(line, 65, 80))->0)
}

/// Reads the constituent slots of a metadata line.
fn parse_constituents(line: &str) -> (r: Result<Vec<ElementAmount>, RecordError>)
    requires
        cut_error(line@, 10, 50) is None,
    ensures
        match r {
            Ok(v) => constituents_error_from(line@, 0) is None && v@.len() == constituent_count(
                line@,
            ) && forall|i: int|
                0 <= i < v@.len() ==> element_amount_is(line@, i, #[trigger] v@[i]),
            Err(e) => constituents_error_from(line@, 0) == Some(e),
        },
{
    let mut constituents: Vec<ElementAmount> = Vec::new();
    let mut i: usize = 0;
    let mut done = false;
    while i < 5 && !done
        invariant
            cut_error(line@, 10, 50) is None,
            i <= 5,
            constituents@.len() == i,
            forall|j: int|
                0 <= j < i ==> element_amount_is(line@, j, #[trigger] constituents@[j]),
            constituent_count(line@) == i + constituents_from(line@, i as nat),
            constituents_error_from(line@, 0) == constituents_error_from(line@, i as nat),
            done ==> constituents_from(line@, i as nat) == 0 && constituents_error_from(
                line@,
                i as nat,
            ) is None,
        decreases 11 - 2 * i - (if done { 1int } else { 0int }),
    {
        if !line.is_char_boundary(10 + 8 * i) || !line.is_char_boundary(12 + 8 * i)
            || !line.is_char_boundary(18 + 8 * i) {
            return Err(RecordError::SplitCharacter);
        }
        let name = match cut_field(line, 10 + 8 * i, 12 + 8 * i) {
            Ok(t) => t,
            Err(e) => {
                return Err(e);
            },
        };
        if name.unicode_len() == 0 {
            done = true;
        } else {
            let moles_text = match cut_field(line, 12 + 8 * i, 18 + 8 * i) {
                Ok(t) => t,
                Err(e) => {
                    return Err(e);
                },
            };
            match parse_decimal(moles_text) {
                None => {
                    return Err(RecordError::ConstituentMoles(i));
                },
                Some(moles) => {
                    let element = String::from_str(name);
                    let ghost before = constituents@;
                    constituents.push(ElementAmount { moles, element });
                    assert(forall|j: int| 0 <= j < i ==> constituents@[j] == before[j]);
                    i = i + 1;
                },
            }
        }
    }
    Ok(constituents)
}

/// Reads the metadata line of a species record. Its columns are bytes: the
/// number of temperature intervals (1-2), up to five constituents of eight
/// columns each from column 11 on (a blank element symbol ends the list),
/// the phase flag (51-52), the molecular weight (53-65) and the heat of
/// formation (66-80). Element symbols are kept as written; what follows
/// column 80 is not read.
pub fn parse_metadata(raw_metadata: &str) -> (r: Result<Metadata, RecordError>)
    ensures
        match r {
            Ok(m) => metadata_error(raw_metadata@) is None && metadata_is(raw_metadata@, m),
            Err(e) => metadata_error(raw_metadata@) == Some(e),
        },
{
    let line = raw_metadata;
    let temperature_intervals = match cut_field(line, 0, 2) {
        Ok(t) => match parse_integer(t, false) {
            Some(v) => v as usize,
            None => {
                return Err(RecordError::TemperatureIntervals);
            },
        },
        Err(e) => {
            return Err(e);
        },
    };
    match cut_field(line, 10, 50) {
        Ok(_) => {},
        Err(e) => {
            return Err(e);
        },
    }
    let constituents = match parse_constituents(line) {
        Ok(v) => v,
        Err(e) => {
            return Err(e);
        },
    };
    let phase = match cut_field(line, 50, 52) {
        Ok(t) => match parse_integer(t, true) {
            Some(v) => {
                proof {
                    crate::numeral::lemma_pow10_monotone(field(line@, 50, 52).len(), 2);
                    reveal_with_fuel(crate::numeral::pow10, 3);
                }
                if v < 0 {
                    (v + 256) as u8
                } else {
                    v as u8
                }
            },
            None => {
                return Err(RecordError::Phase);
            },
        },
        Err(e) => {
            return Err(e);
        },
    };
    let mw = match cut_field(line, 52, 65) {
        Ok(t) => match parse_decimal(t) {
            Some(d) => d,
            None => {
                return Err(RecordError::MolecularWeight);
            },
        },
        Err(e) => {
            return Err(e);
        },
    };
    let h_formation = match cut_field(line, 65, 80) {
        Ok(t) => match parse_decimal(t) {
            Some(d) => d,
            None => {
                return Err(RecordError::HeatOfFormation);
            },
        },
        Err(e) => {
            return Err(e);
        },
    };
    Ok(Metadata { temperature_intervals, constituents, phase, mw, h_formation })
}

/// One temperature interval of a species record: its bounds [K] and the
/// nine coefficients of the NASA polynomials that hold on it.
#[derive(Debug)]
pub struct TemperatureRange {
    pub low: Decimal,
    pub high: Decimal,
    pub coefficients: Vec<Decimal>,
}

/// The characters of each line.
pub open spec fn line_views(lines: Seq<String>) -> Seq<Seq<char>> {
    lines.map_values(|l: String| l@)
}

/// Which of the two coefficient rows (1 or 2) holds coefficient `k`.
pub open spec fn coefficient_row(k: int) -> int {
    if k < 5 {
        1
    } else {
        2
    }
}

/// The first column of coefficient `k` (0 to 8) on its row: five fields
/// of 16 columns on the first row, then two on the second, a blank field,
/// and the two integration constants.
pub open spec fn coefficient_column(k: int) -> int {
    if k < 5 {
        16 * k
    } else if k < 7 {
        16 * (k - 5)
    } else {
        16 * (k - 5) + 16
    }
}

/// `s` with the Fortran exponent marker `D` (or `d`) written as `e`.
pub open spec fn fortran_to_rust(s: Seq<char>) -> Seq<char> {
    Seq::new(s.len(), |i: int| if s[i] == 'D' || s[i] == 'd' { 'e' } else { s[i] })
}

/// The text of coefficient `k` on its row, ready to be read as a number.
pub open spec fn coefficient_text(row: Seq<char>, k: int) -> Seq<char> {
    fortran_to_rust(field(row, coefficient_column(k), coefficient_column(k) + 16))
}

/// The first problem among coefficients `k` to `to - 1` of `row`.
pub open spec fn row_error(row: Seq<char>, k: nat, to: nat) -> Option<RecordError>
    decreases to - k,
{
    if k >= to {
        None
    } else if cut_error(row, coefficient_column(k as int), coefficient_column(k as int) + 16) is Some {
        cut_error(row, coefficient_column(k as int), coefficient_column(k as int) + 16)
    } else if decimal_field(coefficient_text(row, k as int)) is None {
        Some(RecordError::Coefficient(k as usize))
    } else {
        row_error(row, k + 1, to)
    }
}

/// The first problem met when reading a temperature interval from the
/// first three of `lines`: a header with the bounds in columns 1-11 and
/// 12-22, then two rows of coefficients.
pub open spec fn temperature_error(lines: Seq<Seq<char>>) -> Option<RecordError> {
    if lines.len() < 1 {
        Some(RecordError::MissingLine)
    } else if cut_error(lines[0], 0, 11) is Some {
        cut_error(lines[0], 0, 11)
    } else if decimal_field(field(lines[0], 0, 11)) is None {
        Some(RecordError::TemperatureLow)
    } else if cut_error(lines[0], 11, 22) is Some {
        cut_error(lines[0], 11, 22)
    } else if decimal_field(field(lines[0], 11, 22)) is None {
        Some(RecordError::TemperatureHigh)
    } else if lines.len() < 2 {
        Some(RecordError::MissingLine)
    } else if row_error(lines[1], 0, 5) is Some {
        row_error(lines[1], 0, 5)
    } else if lines.len() < 3 {
        Some(RecordError::MissingLine)
    } else {
        row_error(lines[2], 5, 9)
    }
}

/// `t` holds what the well-formed interval at the start of `lines` says.
pub open spec fn temperature_range_is(lines: Seq<Seq<char>>, t: TemperatureRange) -> bool {
    &&& decimal_is(t.low, decimal_field(field(lines[0], 0, 11))->0)
    &&& decimal_is(t.high, decimal_field(field(lines[0], 11, 22))->0)
    &&& t.coefficients@.len() == 9
    &&& forall|k: int|
        0 <= k < 9 ==> decimal_is(
            #[trigger] t.coefficients@[k],
            decimal_field(coefficient_text(lines[coefficient_row(k)], k))->0,
        )
}

/// Rewrites the Fortran exponent marker `D` (or `d`) as `e`.
fn fortran_exponent_to_rust(s: &str) -> (r: String)
    ensures
        r@ == fortran_to_rust(s@),
{
    let n = s.unicode_len();
    let mut out = String::new();
    let mut i: usize = 0;
    while i < n
        invariant
            n == s@.len(),
            i <= n,
            out@ =~= fortran_to_rust(s@.take(i as int)),
        decreases n - i,
    {
        let c = s.get_char(i);
        if c == 'D' || c == 'd' {
            proof { reveal_strlit("e"); }
            out.append("e");
        } else {
            out.append(s.substring_char(i, i + 1));
        }
        i = i + 1;
    }
    proof {
        assert(s@.take(n as int) =~= s@);
    }
    out
}

/// Reads coefficients `from` to `to - 1` of a coefficient row onto `out`.
fn parse_coefficient_row(row: &str, from: usize, to: usize, out: &mut Vec<Decimal>) -> (r: Result<
    (),
    RecordError,
>)
    requires
        (from == 0 && to == 5) || (from == 5 && to == 9),
        old(out)@.len() == from,
    ensures
        match r {
            Ok(()) => row_error(row@, from as nat, to as nat) is None && final(out)@.len() == to
                && forall|k: int| 0 <= k < from ==> final(out)@[k] == old(out)@[k],
            Err(e) => row_error(row@, from as nat, to as nat) == Some(e),
        },
        r is Ok ==> forall|k: int|
            from <= k < to ==> decimal_is(
                #[trigger] final(out)@[k],
                decimal_field(coefficient_text(row@, k))->0,
            ),
{
    let mut k = from;
    while k < to
        invariant
            from <= k <= to,
            (from == 0 && to == 5) || (from == 5 && to == 9),
            out@.len() == k,
            forall|j: int| 0 <= j < from ==> out@[j] == old(out)@[j],
            forall|j: int|
                from <= j < k ==> decimal_is(
                    #[trigger] out@[j],
                    decimal_field(coefficient_text(row@, j))->0,
                ),
            row_error(row@, from as nat, to as nat) == row_error(row@, k as nat, to as nat),
        decreases to - k,
    {
        let column: usize = if k < 5 {
            16 * k
        } else if k < 7 {
            16 * (k - 5)
        } else {
            16 * (k - 5) + 16
        };
        let cut = match cut_field(row, column, column + 16) {
            Ok(t) => t,
            Err(e) => {
                return Err(e);
            },
        };
        let text = fortran_exponent_to_rust(cut);
        match parse_decimal(text.as_str()) {
            None => {
                return Err(RecordError::Coefficient(k));
            },
            Some(d) => {
                out.push(d);
            },
        }
        k = k + 1;
    }
    Ok(())
}

/// Reads the temperature interval that starts at `lines[start]`.
fn parse_temperature_data_at(lines: &[String], start: usize) -> (r: Result<
    TemperatureRange,
    RecordError,
>)
    requires
        start <= lines@.len(),
    ensures
        match r {
            Ok(t) => temperature_error(line_views(lines@).skip(start as int)) is None
                && temperature_range_is(line_views(lines@).skip(start as int), t),
            Err(e) => temperature_error(line_views(lines@).skip(start as int)) == Some(e),
        },
{
    let ghost ls = line_views(lines@).skip(start as int);
    if start >= lines.len() {
        return Err(RecordError::MissingLine);
    }
    let header = lines[start].as_str();
    assert(ls[0] == header@);
    let low = match cut_field(header, 0, 11) {
        Ok(t) => match parse_decimal(t) {
            Some(d) => d,
            None => {
                return Err(RecordError::TemperatureLow);
            },
        },
        Err(e) => {
            return Err(e);
        },
    };
    let high = match cut_field(header, 11, 22) {
        Ok(t) => match parse_decimal(t) {
            Some(d) => d,
            None => {
                return Err(RecordError::TemperatureHigh);
            },
        },
        Err(e) => {
            return Err(e);
        },
    };
    if start + 1 >= lines.len() {
        return Err(RecordError::MissingLine);
    }
    let row1 = lines[start + 1].as_str();
    assert(ls[1] == row1@);
    let mut coefficients: Vec<Decimal> = Vec::new();
    match parse_coefficient_row(row1, 0, 5, &mut coefficients) {
        Ok(()) => {},
        Err(e) => {
            return Err(e);
        },
    }
    if start + 2 >= lines.len() {
        return Err(RecordError::MissingLine);
    }
    let row2 = lines[start + 2].as_str();
    assert(ls[2] == row2@);
    let ghost first_row = coefficients@;
    match parse_coefficient_row(row2, 5, 9, &mut coefficients) {
        Ok(()) => {},
        Err(e) => {
            return Err(e);
        },
    }
    let t = TemperatureRange { low, high, coefficients };
    assert forall|k: int|
        0 <= k < 9 implies decimal_is(
        #[trigger] t.coefficients@[k],
        decimal_field(coefficient_text(ls[coefficient_row(k)], k))->0,
    ) by {
        if k < 5 {
            assert(t.coefficients@[k] == first_row[k]);
        }
    }
    Ok(t)
}

/// Reads one temperature interval of a species record from the first three
/// of `lines`: the header with the interval's bounds, then the two rows of
/// coefficients, whose `D` or `d` exponent markers are read as `e`. Columns
/// are bytes, and only those of the fields are read.
pub fn parse_temperature_data(lines: &[String]) -> (r: Result<TemperatureRange, RecordError>)
    ensures
        match r {
            Ok(t) => temperature_error(line_views(lines@)) is None && temperature_range_is(
                line_views(lines@),
                t,
            ),
            Err(e) => temperature_error(line_views(lines@)) == Some(e),
        },
{
    assert(line_views(lines@).skip(0) =~= line_views(lines@));
    parse_temperature_data_at(lines, 0)
}

/// A species record of `thermo.inp`.
#[derive(Debug)]
pub struct Entry {
    /// The species name made into an identifier (`clean_identifier`).
    pub identifier: String,
    /// The species name as written, e.g. `Ag+`.
    pub symbol: String,
    pub metadata: Metadata,
    /// One range per temperature interval, in the order listed.
    pub temperature_data: Vec<TemperatureRange>,
}

/// Index of the first space of `s`, or its length if it has none.
pub open spec fn space_index(s: Seq<char>) -> nat
    decreases s.len(),
{
    if s.len() == 0 || s[0] == ' ' {
        0
    } else {
        1 + space_index(s.drop_first())
    }
}

/// The species name of a record header: the text before its first space.
pub open spec fn header_name(header: Seq<char>) -> Seq<char> {
    header.take(space_index(header) as int)
}

/// The first problem met when reading intervals `k` to `count - 1` of a
/// record, interval `k` starting at line `2 + 3k`.
pub open spec fn intervals_error(lines: Seq<Seq<char>>, k: nat, count: nat) -> Option<RecordError>
    decreases count - k,
{
    if k >= count {
        None
    } else if 2 + 3 * k > lines.len() {
        Some(RecordError::MissingLine)
    } else if temperature_error(lines.skip((2 + 3 * k) as int)) is Some {
        temperature_error(lines.skip((2 + 3 * k) as int))
    } else {
        intervals_error(lines, k + 1, count)
    }
}

/// The first problem met when reading the species record at the start of
/// `lines`: header, metadata line, then its temperature intervals.
pub open spec fn entry_error(lines: Seq<Seq<char>>) -> Option<RecordError> {
    if lines.len() < 2 {
        Some(RecordError::MissingLine)
    } else if metadata_error(lines[1]) is Some {
        metadata_error(lines[1])
    } else {
        intervals_error(
            lines,
            0,
            (spec_parse_integer(field(lines[1], 0, 2), false)->0) as nat,
        )
    }
}

/// `e` holds what the well-formed record at the start of `lines` says.
pub open spec fn entry_is(lines: Seq<Seq<char>>, e: Entry) -> bool {
    &&& e.symbol@ == header_name(lines[0])
    &&& e.identifier@ == spec_clean_identifier(header_name(lines[0]))
    &&& metadata_is(lines[1], e.metadata)
    &&& e.temperature_data@.len() == e.metadata.temperature_intervals
    &&& forall|k: int|
        0 <= k < e.temperature_data@.len() ==> temperature_range_is(
            lines.skip(2 + 3 * k),
            #[trigger] e.temperature_data@[k],
        )
}

proof fn lemma_space_index_is(s: Seq<char>, i: nat)
    requires
        i <= s.len(),
        forall|k: int| 0 <= k < i ==> s[k] != ' ',
        i < s.len() ==> s[i as int] == ' ',
    ensures
        space_index(s) == i,
    decreases i,
{
    if i > 0 {
        let t = s.drop_first();
        assert forall|k: int| 0 <= k < i - 1 implies t[k] != ' ' by {
            assert(t[k] == s[k + 1]);
        }
        if i - 1 < t.len() {
            assert(t[i - 1] == s[i as int]);
        }
        lemma_space_index_is(t, (i - 1) as nat);
    }
}

/// The species name of a record header (`header.split(" ")`'s first part).
pub fn first_word(header: &str) -> (r: &str)
    ensures
        r@ == header_name(header@),
{
    let n = header.unicode_len();
    let mut i: usize = 0;
    while i < n && header.get_char(i) != ' '
        invariant
            n == header@.len(),
            i <= n,
            forall|k: int| 0 <= k < i ==> header@[k] != ' ',
        decreases n - i,
    {
        i = i + 1;
    }
    proof {
        lemma_space_index_is(header@, i as nat);
    }
    header.substring_char(0, i)
}

/// Reads one species record of `thermo.inp` from the start of `lines`: a
/// header whose first word is the species name, the metadata line, and as
/// many temperature intervals (three lines each) as the metadata announces.
/// The record takes `2 + 3 * temperature_intervals` lines.
pub fn process_entry(lines: &[String]) -> (r: Result<Entry, RecordError>)
    ensures
        match r {
            Ok(e) => entry_error(line_views(lines@)) is None && entry_is(line_views(lines@), e),
            Err(err) => entry_error(line_views(lines@)) == Some(err),
        },
{
    let ghost ls = line_views(lines@);
    assert(ls.len() == lines@.len());
    if lines.len() < 1 {
        return Err(RecordError::MissingLine);
    }
    assert(ls[0] == lines@[0]@);
    let name = first_word(lines[0].as_str());
    let identifier = clean_identifier(name);
    let symbol = String::from_str(name);
    if lines.len() < 2 {
        return Err(RecordError::MissingLine);
    }
    assert(ls[1] == lines@[1]@);
    let metadata = match parse_metadata(lines[1].as_str()) {
        Ok(m) => m,
        Err(e) => {
            return Err(e);
        },
    };
    let count = metadata.temperature_intervals;
    let n = lines.len();
    let mut temperature_data: Vec<TemperatureRange> = Vec::new();
    let mut k: usize = 0;
    while k < count
        invariant
            ls == line_views(lines@),
            ls.len() == lines@.len(),
            n == lines@.len(),
            ls.len() >= 2,
            metadata_error(ls[1]) is None,
            metadata_is(ls[1], metadata),
            count == metadata.temperature_intervals,
            k <= count,
            temperature_data@.len() == k,
            forall|j: int|
                0 <= j < k ==> temperature_range_is(
                    ls.skip(2 + 3 * j),
                    #[trigger] temperature_data@[j],
                ),
            intervals_error(ls, 0, count as nat) == intervals_error(ls, k as nat, count as nat),
            2 + 3 * k <= ls.len(),
        decreases count - k,
    {
        let start = 2 + 3 * k;
        match parse_temperature_data_at(lines, start) {
            Ok(t) => {
                let ghost before = temperature_data@;
                temperature_data.push(t);
                assert(forall|j: int| 0 <= j < k ==> temperature_data@[j] == before[j]);
            },
            Err(e) => {
                return Err(e);
            },
        }
        k = k + 1;
    }
    Ok(Entry { identifier, symbol, metadata, temperature_data })
}

/// When the intervals `k` to `count - 1` read without a problem, interval
/// `j` among them has its three lines, starting at line `2 + 3j`.
proof fn lemma_interval_lines(lines: Seq<Seq<char>>, k: nat, count: nat, j: nat)
    requires
        intervals_error(lines, k, count) is None,
        k <= j < count,
    ensures
        2 + 3 * j + 3 <= lines.len(),
        temperature_error(lines.skip((2 + 3 * j) as int)) is None,
    decreases j - k,
{
    if k < j {
        lemma_interval_lines(lines, k + 1, count, j);
    } else {
        let t = lines.skip((2 + 3 * j) as int);
        assert(temperature_error(t) is None);
        assert(t.len() >= 3);
    }
}

/// Interval `k` of a record is read from lines `2 + 3k` (its bounds, in
/// columns 1-11 and 12-22), `3 + 3k` (coefficients 1 to 5) and `4 + 3k`
/// (coefficients 6 to 9) of the record: each interval from its own three
/// lines, in the order they come.
pub proof fn lemma_entry_intervals_in_order(lines: Seq<Seq<char>>, e: Entry, k: int)
    requires
        entry_error(lines) is None,
        entry_is(lines, e),
        0 <= k < e.metadata.temperature_intervals,
    ensures
        e.temperature_data@.len() == e.metadata.temperature_intervals,
        4 + 3 * k < lines.len(),
        decimal_is(
            e.temperature_data@[k].low,
            decimal_field(field(lines[2 + 3 * k], 0, 11))->0,
        ),
        decimal_is(
            e.temperature_data@[k].high,
            decimal_field(field(lines[2 + 3 * k], 11, 22))->0,
        ),
        e.temperature_data@[k].coefficients@.len() == 9,
        forall|j: int|
            0 <= j < 5 ==> decimal_is(
                #[trigger] e.temperature_data@[k].coefficients@[j],
                decimal_field(
                    fortran_to_rust(field(lines[3 + 3 * k], 16 * j, 16 * j + 16)),
                )->0,
            ),
        forall|j: int|
            5 <= j < 9 ==> decimal_is(
                #[trigger] e.temperature_data@[k].coefficients@[j],
                decimal_field(
                    fortran_to_rust(
                        field(lines[4 + 3 * k], coefficient_column(j), coefficient_column(j) + 16),
                    ),
                )->0,
            ),
{
    let count = (spec_parse_integer(field(lines[1], 0, 2), false)->0) as nat;
    assert(e.metadata.temperature_intervals == count);
    lemma_interval_lines(lines, 0, count, k as nat);
    let t = lines.skip(2 + 3 * k);
    assert(temperature_range_is(t, e.temperature_data@[k]));
    assert(t[0] == lines[2 + 3 * k]);
    assert(t[1] == lines[3 + 3 * k]);
    assert(t[2] == lines[4 + 3 * k]);
    assert forall|j: int|
        0 <= j < 5 implies decimal_is(
        #[trigger] e.temperature_data@[k].coefficients@[j],
        decimal_field(fortran_to_rust(field(lines[3 + 3 * k], 16 * j, 16 * j + 16)))->0,
    ) by {
        assert(coefficient_row(j) == 1);
        assert(coefficient_column(j) == 16 * j);
    }
    assert forall|j: int|
        5 <= j < 9 implies decimal_is(
        #[trigger] e.temperature_data@[k].coefficients@[j],
        decimal_field(
            fortran_to_rust(
                field(lines[4 + 3 * k], coefficient_column(j), coefficient_column(j) + 16),
            ),
        )->0,
    ) by {
        assert(coefficient_row(j) == 2);
    }
}

} // verus!
