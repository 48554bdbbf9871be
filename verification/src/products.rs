use vstd::prelude::*;
use crate::numeral::spec_parse_integer;
use crate::parsing::{
    Entry, RecordError, entry_error, entry_is, field, first_word, header_name, intervals_error,
    line_views, process_entry, temperature_error,
};

verus! {

/// A comment line of `thermo.inp` starts with `!`.
pub open spec fn is_comment(line: Seq<char>) -> bool {
    line.len() > 0 && line[0] == '!'
}

pub open spec fn not_comment() -> spec_fn(Seq<char>) -> bool {
    |l: Seq<char>| !is_comment(l)
}

/// The lines of the file without its comments.
pub open spec fn uncommented(lines: Seq<Seq<char>>) -> Seq<Seq<char>> {
    lines.filter(not_comment())
}

/// The line that ends the list of products.
pub open spec fn end_of_products() -> Seq<char> {
    seq!['E', 'N', 'D', ' ', 'P', 'R', 'O', 'D', 'U', 'C', 'T', 'S']
}

/// The first line, from `i` on, whose species name is `e-`: the products
/// start with the electron.
pub open spec fn first_electron_from(ls: Seq<Seq<char>>, i: nat) -> Option<nat>
    decreases ls.len() - i,
{
    if i >= ls.len() {
        None
    } else if header_name(ls[i as int]) == seq!['e', '-'] {
        Some(i)
    } else {
        first_electron_from(ls, i + 1)
    }
}

/// Number of lines the well-formed record at the start of `ls` takes.
pub open spec fn record_len(ls: Seq<Seq<char>>) -> int {
    2 + 3 * spec_parse_integer(field(ls[1], 0, 2), false)->0
}

/// `starts` put in front of the record starts of `r`.
pub open spec fn prepend(starts: Seq<int>, r: Result<Seq<int>, RecordError>) -> Result<
    Seq<int>,
    RecordError,
> {
    match r {
        Ok(rest) => Ok(starts + rest),
        Err(e) => Err(e),
    }
}

/// Where the records from line `pos` to the end marker start, or the first
/// problem met reading them.
pub open spec fn records_from(ls: Seq<Seq<char>>, pos: nat) -> Result<Seq<int>, RecordError>
    decreases ls.len() - pos,
{
    if pos >= ls.len() {
        Err(RecordError::MissingLine)
    } else if ls[pos as int] == end_of_products() {
        Ok(Seq::empty())
    } else if entry_error(ls.skip(pos as int)) is Some {
        Err(entry_error(ls.skip(pos as int))->0)
    } else if !(0 < record_len(ls.skip(pos as int)) <= ls.len() - pos) {
        // A well-formed record always fits (`lemma_record_fits`).
        Err(RecordError::MissingLine)
    } else {
        prepend(seq![pos as int], records_from(ls, (pos + record_len(ls.skip(pos as int))) as nat))
    }
}

/// Where the product records of a `thermo.inp` file start, in its
/// uncommented lines, or the first problem met reading them.
pub open spec fn spec_products(lines: Seq<Seq<char>>) -> Result<Seq<int>, RecordError> {
    match first_electron_from(uncommented(lines), 0) {
        None => Err(RecordError::MissingLine),
        Some(i) => records_from(uncommented(lines), i),
    }
}

proof fn lemma_prepend_push(starts: Seq<int>, pos: int, r: Result<Seq<int>, RecordError>)
    ensures
        prepend(starts, prepend(seq![pos], r)) == prepend(starts.push(pos), r),
{
    if let Ok(rest) = r {
        assert(starts + (seq![pos] + rest) =~= starts.push(pos) + rest);
    }
}

proof fn lemma_intervals_fit(ls: Seq<Seq<char>>, k: nat, count: nat)
    requires
        intervals_error(ls, k, count) is None,
        2 + 3 * k <= ls.len(),
    ensures
        2 + 3 * count <= ls.len() || k >= count,
    decreases count - k,
{
    if k < count {
        assert(temperature_error(ls.skip((2 + 3 * k) as int)) is None);
        lemma_intervals_fit(ls, k + 1, count);
    }
}

/// A well-formed record fits in the lines that hold it.
proof fn lemma_record_fits(ls: Seq<Seq<char>>)
    requires
        entry_error(ls) is None,
    ensures
        2 <= record_len(ls) <= ls.len(),
{
    let count = (spec_parse_integer(field(ls[1], 0, 2), false)->0) as nat;
    lemma_intervals_fit(ls, 0, count);
}

/// The lines of `lines` that are not comments.
fn drop_comments(lines: &[String]) -> (r: Vec<String>)
    ensures
        line_views(r@) == uncommented(line_views(lines@)),
{
    let mut kept: Vec<String> = Vec::new();
    let mut i: usize = 0;
    proof {
        reveal_with_fuel(Seq::<_>::filter, 1);
        assert(line_views(lines@).take(0) =~= Seq::<Seq<char>>::empty());
        assert(line_views(kept@) =~= Seq::<Seq<char>>::empty());
    }
    while i < lines.len()
        invariant
            i <= lines@.len(),
            line_views(kept@) == line_views(lines@).take(i as int).filter(not_comment()),
        decreases lines@.len() - i,
    {
        let line = lines[i].as_str();
        let comment = line.unicode_len() > 0 && line.get_char(0) == '!';
        let ghost v = line_views(lines@);
        proof {
            assert(v[i as int] == lines@[i as int]@);
            assert(v.take(i + 1) =~= v.take(i as int).push(v[i as int]));
            v.take(i as int).lemma_filter_push(v[i as int], not_comment());
        }
        if !comment {
            let ghost before = kept@;
            kept.push(lines[i].clone());
            assert(line_views(kept@) =~= line_views(before).push(lines@[i as int]@));
        }
        i = i + 1;
    }
    proof {
        assert(line_views(lines@).take(lines@.len() as int) =~= line_views(lines@));
    }
    kept
}

/// Reads every product record of a `thermo.inp` file, given as its lines:
/// comment lines (starting with `!`) are dropped, the lines before the
/// electron's record (`e-`) are skipped, and records are read up to the
/// `END PRODUCTS` line.
pub fn read_products(lines: &[String]) -> (r: Result<Vec<Entry>, RecordError>)
    ensures
        match r {
            Ok(v) => spec_products(line_views(lines@)) matches Ok(starts) && v@.len()
                == starts.len() && forall|k: int|
                0 <= k < v@.len() ==> entry_is(
                    uncommented(line_views(lines@)).skip(starts[k]),
                    #[trigger] v@[k],
                ),
            Err(e) => spec_products(line_views(lines@)) == Err::<Seq<int>, RecordError>(e),
        },
{
    let cleaned = drop_comments(lines);
    let ghost ls = uncommented(line_views(lines@));
    assert(ls.len() == cleaned@.len());
    let n = cleaned.len();
    let mut pos: usize = 0;
    while pos < n && !electron_header(cleaned[pos].as_str())
        invariant
            n == cleaned@.len(),
            ls == line_views(cleaned@),
            ls.len() == n,
            pos <= n,
            first_electron_from(ls, 0) == first_electron_from(ls, pos as nat),
        decreases n - pos,
    {
        assert(ls[pos as int] == cleaned@[pos as int]@);
        pos = pos + 1;
    }
    if pos >= n {
        return Err(RecordError::MissingLine);
    }
    assert(ls[pos as int] == cleaned@[pos as int]@);
    let ghost first = pos;
    let end_marker = String::from_str("END PRODUCTS");
    proof {
        reveal_strlit("END PRODUCTS");
        assert(end_marker@ =~= end_of_products());
    }
    let mut entries: Vec<Entry> = Vec::new();
    let ghost mut starts: Seq<int> = Seq::empty();
    loop
        invariant
            n == cleaned@.len(),
            ls == line_views(cleaned@),
            ls.len() == n,
            pos <= n,
            end_marker@ == end_of_products(),
            ls == uncommented(line_views(lines@)),
            spec_products(line_views(lines@)) == prepend(starts, records_from(ls, pos as nat)),
            entries@.len() == starts.len(),
            forall|k: int|
                0 <= k < entries@.len() ==> entry_is(ls.skip(starts[k]), #[trigger] entries@[k]),
        decreases n - pos,
    {
        if pos >= n {
            assert(prepend(starts, records_from(ls, pos as nat)) == Err::<Seq<int>, RecordError>(
                RecordError::MissingLine,
            ));
            return Err(RecordError::MissingLine);
        }
        assert(ls[pos as int] == cleaned@[pos as int]@);
        if cleaned[pos] == end_marker {
            assert(ls[pos as int] == end_of_products());
            assert(records_from(ls, pos as nat) == Ok::<Seq<int>, RecordError>(Seq::empty()));
            assert(starts + Seq::<int>::empty() =~= starts);
            return Ok(entries);
        }
        let rest = &cleaned.as_slice()[pos..n];
        let ghost tail = ls.skip(pos as int);
        assert(line_views(rest@) =~= tail);
        match process_entry(rest) {
            Ok(e) => {
                proof {
                    lemma_record_fits(tail);
                    lemma_prepend_push(
                        starts,
                        pos as int,
                        records_from(ls, (pos + record_len(tail)) as nat),
                    );
                }
                let used = 2 + 3 * e.metadata.temperature_intervals;
                let ghost before = entries@;
                entries.push(e);
                proof {
                    starts = starts.push(pos as int);
                    assert forall|k: int|
                        0 <= k < entries@.len() implies entry_is(
                        ls.skip(starts[k]),
                        #[trigger] entries@[k],
                    ) by {
                        if k < before.len() {
                            assert(entries@[k] == before[k]);
                        }
                    }
                }
                pos = pos + used;
            },
            Err(err) => {
                return Err(err);
            },
        }
    }
}

/// The position of the first record whose species name (as written in its
/// header, e.g. `H2O(cr)`) is `symbol`, or `None` when no record has it:
/// reading a species back from its name at run time.
pub fn find_record(records: &[Entry], symbol: &str) -> (r: Option<usize>)
    ensures
        match r {
            Some(i) => i < records@.len() && records@[i as int].symbol@ == symbol@ && forall|j: int|
                0 <= j < i ==> (#[trigger] records@[j]).symbol@ != symbol@,
            None => forall|j: int|
                0 <= j < records@.len() ==> (#[trigger] records@[j]).symbol@ != symbol@,
        },
{
    let wanted = String::from_str(symbol);
    let mut i: usize = 0;
    while i < records.len()
        invariant
            i <= records@.len(),
            wanted@ == symbol@,
            forall|j: int| 0 <= j < i ==> (#[trigger] records@[j]).symbol@ != symbol@,
        decreases records@.len() - i,
    {
        if records[i].symbol == wanted {
            return Some(i);
        }
        i = i + 1;
    }
    None
}

/// Whether the species name of `line` is `e-`.
fn electron_header(line: &str) -> (r: bool)
    ensures
        r == (header_name(line@) == seq!['e', '-']),
{
    let w = first_word(line);
    let r = w.unicode_len() == 2 && w.get_char(0) == 'e' && w.get_char(1) == '-';
    proof {
        if r {
            assert(w@ =~= seq!['e', '-']);
        }
    }
    r
}

/// A record, not the end marker, starts at line `p` and reads without a
/// problem.
pub open spec fn record_at(ls: Seq<Seq<char>>, p: int) -> bool {
    &&& 0 <= p < ls.len()
    &&& ls[p] != end_of_products()
    &&& entry_error(ls.skip(p)) is None
}

/// One step of reading the records from line `pos`.
proof fn lemma_records_step(ls: Seq<Seq<char>>, pos: nat)
    requires
        records_from(ls, pos) is Ok,
    ensures
        pos < ls.len(),
        ls[pos as int] == end_of_products() ==> records_from(ls, pos) == Ok::<
            Seq<int>,
            RecordError,
        >(Seq::empty()),
        ls[pos as int] != end_of_products() ==> {
            &&& record_at(ls, pos as int)
            &&& 0 < record_len(ls.skip(pos as int))
            &&& records_from(ls, (pos + record_len(ls.skip(pos as int))) as nat) is Ok
            &&& records_from(ls, pos)->Ok_0 == seq![pos as int] + records_from(
                ls,
                (pos + record_len(ls.skip(pos as int))) as nat,
            )->Ok_0
        },
{
}

#[verifier::opaque]
spec fn good_record(ls: Seq<Seq<char>>, p: int) -> bool {
    record_at(ls, p)
}

#[verifier::opaque]
spec fn len_at(ls: Seq<Seq<char>>, p: int) -> int {
    record_len(ls.skip(p))
}

#[verifier::opaque]
spec fn marker_at(ls: Seq<Seq<char>>, p: int) -> bool {
    0 <= p < ls.len() && ls[p] == end_of_products()
}

/// The records read from line `pos` on follow one another: the first
/// starts at `pos`, each next one where the one before it ends, and the end
/// marker follows the last.
proof fn lemma_records_chain(ls: Seq<Seq<char>>, pos: nat, starts: Seq<int>)
    requires
        records_from(ls, pos) == Ok::<Seq<int>, RecordError>(starts),
    ensures
        starts.len() == 0 ==> marker_at(ls, pos as int),
        starts.len() > 0 ==> starts[0] == pos,
        forall|k: int| 0 <= k < starts.len() ==> pos <= #[trigger] starts[k] && good_record(ls, starts[k]),
        forall|k: int|
            0 <= k < starts.len() - 1 ==> #[trigger] starts[k + 1] == starts[k] + len_at(ls, starts[k]),
        starts.len() > 0 ==> marker_at(ls, starts.last() + len_at(ls, starts.last())),
    decreases ls.len() - pos,
{
    lemma_records_step(ls, pos);
    if ls[pos as int] == end_of_products() {
        reveal(marker_at);
    } else {
        let next = (pos + record_len(ls.skip(pos as int))) as nat;
        let rest = records_from(ls, next)->Ok_0;
        assert(starts == seq![pos as int] + rest);
        assert(len_at(ls, pos as int) == next - pos) by {
            reveal(len_at);
        }
        assert(good_record(ls, pos as int)) by {
            reveal(good_record);
        }
        lemma_records_chain(ls, next, rest);
        assert forall|k: int| 0 <= k < starts.len() implies pos <= #[trigger] starts[k] && good_record(
            ls,
            starts[k],
        ) by {
            if k > 0 {
                assert(starts[k] == rest[k - 1]);
            }
        }
        assert forall|k: int|
            0 <= k < starts.len() - 1 implies #[trigger] starts[k + 1] == starts[k] + len_at(
            ls,
            starts[k],
        ) by {
            assert(starts[k + 1] == rest[k]);
            if k > 0 {
                assert(starts[k] == rest[k - 1]);
                assert(rest[(k - 1) + 1] == rest[k - 1] + len_at(ls, rest[k - 1]));
            } else {
                assert(rest.len() > 0);
                assert(rest[0] == next);
                assert(starts[0] == pos);
            }
        }
        if rest.len() > 0 {
            assert(starts.last() == rest.last());
        }
    }
}

proof fn lemma_space_index_bound(s: Seq<char>)
    ensures
        crate::parsing::space_index(s) <= s.len(),
    decreases s.len(),
{
    if s.len() > 0 && s[0] != ' ' {
        lemma_space_index_bound(s.drop_first());
    }
}

proof fn lemma_first_electron(ls: Seq<Seq<char>>, from: nat, i: nat)
    requires
        first_electron_from(ls, from) == Some(i),
    ensures
        from <= i < ls.len(),
        header_name(ls[i as int]) == seq!['e', '-'],
        forall|j: int| from <= j < i ==> header_name(#[trigger] ls[j]) != seq!['e', '-'],
    decreases ls.len() - from,
{
    if header_name(ls[from as int]) != seq!['e', '-'] {
        lemma_first_electron(ls, from + 1, i);
    }
}

/// The products of a `thermo.inp` file are all its records, whatever their
/// phase, from the first one named `e-` up to the `END PRODUCTS` line, each
/// read from its own lines (of the file without its comments): the first
/// starts at the electron, each next one where the one before it ends, none
/// is the end marker, and the end marker follows the last. `read_products`
/// gives one entry per start, in this order.
pub proof fn lemma_products_are_consecutive_records(lines: Seq<Seq<char>>, starts: Seq<int>)
    requires
        spec_products(lines) == Ok::<Seq<int>, RecordError>(starts),
    ensures
        starts.len() > 0,
        header_name(uncommented(lines)[starts[0]]) == seq!['e', '-'],
        forall|j: int|
            0 <= j < starts[0] ==> header_name(#[trigger] uncommented(lines)[j]) != seq!['e', '-'],
        forall|k: int| 0 <= k < starts.len() ==> record_at(uncommented(lines), #[trigger] starts[k]),
        forall|k: int|
            0 <= k < starts.len() - 1 ==> #[trigger] starts[k + 1] == starts[k] + record_len(
                uncommented(lines).skip(starts[k]),
            ),
        starts.last() + record_len(uncommented(lines).skip(starts.last())) < uncommented(
            lines,
        ).len(),
        uncommented(lines)[starts.last() + record_len(uncommented(lines).skip(starts.last()))]
            == end_of_products(),
{
    let ls = uncommented(lines);
    let i = first_electron_from(ls, 0)->0;
    lemma_first_electron(ls, 0, i);
    lemma_records_chain(ls, i, starts);
    if starts.len() == 0 {
        reveal(marker_at);
        let h = header_name(ls[i as int]);
        lemma_space_index_bound(ls[i as int]);
        assert(h[0] == ls[i as int][0]);
        assert(end_of_products()[0] == 'E');
        assert(false);
    }
    assert forall|k: int| 0 <= k < starts.len() implies record_at(ls, #[trigger] starts[k]) by {
        reveal(good_record);
    }
    assert forall|k: int|
        0 <= k < starts.len() - 1 implies #[trigger] starts[k + 1] == starts[k] + record_len(
        ls.skip(starts[k]),
    ) by {
        reveal(len_at);
    }
    reveal(len_at);
    reveal(marker_at);
}

} // verus!
