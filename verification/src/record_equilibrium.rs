use vstd::prelude::*;
use crate::lexical::{lemma_lex_total, lemma_lex_transitive, lex_lt, text_lt};
use crate::numeral::{Decimal, NumberKind, decimal_is};
use crate::parsing::{ElementAmount, Entry};

verus! {

/// The characters of each text.
pub open spec fn texts(v: Seq<String>) -> Seq<Seq<char>> {
    v.map_values(|s: String| s@)
}

/// The element symbols of a species record, as listed.
pub open spec fn elements_of(e: Entry) -> Seq<Seq<char>> {
    e.metadata.constituents@.map_values(|c: ElementAmount| c.element@)
}

/// The symbol the records use for the electron.
pub open spec fn electron() -> Seq<char> {
    seq!['E']
}

/// The element symbols of the reactant records, reactant by reactant.
pub open spec fn reactant_elements(records: Seq<Entry>, reactants: Seq<usize>) -> Seq<Seq<char>>
    decreases reactants.len(),
{
    if reactants.len() == 0 {
        Seq::empty()
    } else {
        reactant_elements(records, reactants.drop_last()) + elements_of(
            records[reactants.last() as int],
        )
    }
}

/// The elements a problem has to work with: those of the reactants, plus
/// the electron when ions are allowed.
pub open spec fn record_available(
    records: Seq<Entry>,
    reactants: Seq<usize>,
    include_ions: bool,
    x: Seq<char>,
) -> bool {
    reactant_elements(records, reactants).contains(x) || (include_ions && x == electron())
}

/// Record `i` can be a product when all its elements are available and, if
/// a product list `only` is given, it is on that list.
pub open spec fn is_record_candidate(
    records: Seq<Entry>,
    reactants: Seq<usize>,
    include_ions: bool,
    only: Option<Seq<usize>>,
    i: usize,
) -> bool {
    &&& forall|k: int|
        0 <= k < elements_of(records[i as int]).len() ==> record_available(
            records,
            reactants,
            include_ions,
            #[trigger] elements_of(records[i as int])[k],
        )
    &&& (only matches Some(l) ==> l.contains(i))
}

/// The indices `0..n`.
pub open spec fn record_indices(n: nat) -> Seq<usize> {
    Seq::new(n, |i: int| i as usize)
}

pub open spec fn gas_pred(
    records: Seq<Entry>,
    reactants: Seq<usize>,
    include_ions: bool,
    only: Option<Seq<usize>>,
) -> spec_fn(usize) -> bool {
    |i: usize|
        is_record_candidate(records, reactants, include_ions, only, i) && records[i as int].metadata.phase
            == 0
}

pub open spec fn condensed_pred(
    records: Seq<Entry>,
    reactants: Seq<usize>,
    include_ions: bool,
    only: Option<Seq<usize>>,
) -> spec_fn(usize) -> bool {
    |i: usize|
        is_record_candidate(records, reactants, include_ions, only, i) && records[i as int].metadata.phase
            > 0
}

/// The possible gas products (phase 0), in record order.
pub open spec fn spec_gas_products(
    records: Seq<Entry>,
    reactants: Seq<usize>,
    include_ions: bool,
    only: Option<Seq<usize>>,
) -> Seq<usize> {
    record_indices(records.len()).filter(gas_pred(records, reactants, include_ions, only))
}

/// The possible condensed products (nonzero phase), in record order.
pub open spec fn spec_condensed_products(
    records: Seq<Entry>,
    reactants: Seq<usize>,
    include_ions: bool,
    only: Option<Seq<usize>>,
) -> Seq<usize> {
    record_indices(records.len()).filter(condensed_pred(records, reactants, include_ions, only))
}

/// Strictly increasing in lexicographic order (so without repeats).
pub open spec fn strictly_sorted(s: Seq<Seq<char>>) -> bool {
    forall|a: int, b: int| 0 <= a < b < s.len() ==> lex_lt(#[trigger] s[a], #[trigger] s[b])
}

/// The pool without its electron, if it has one.
pub open spec fn pool_body(
    pool: Seq<Seq<char>>,
    records: Seq<Entry>,
    reactants: Seq<usize>,
    include_ions: bool,
) -> Seq<Seq<char>> {
    if record_available(records, reactants, include_ions, electron()) {
        pool.drop_last()
    } else {
        pool
    }
}

/// `pool` is the element pool of the problem: the available elements other
/// than the electron in lexicographic order, then the electron when it is
/// available.
pub open spec fn is_record_pool(
    pool: Seq<Seq<char>>,
    records: Seq<Entry>,
    reactants: Seq<usize>,
    include_ions: bool,
) -> bool {
    &&& record_available(records, reactants, include_ions, electron()) ==> pool.len() > 0
        && pool.last() == electron()
    &&& strictly_sorted(pool_body(pool, records, reactants, include_ions))
    &&& forall|x: Seq<char>|
        #[trigger] pool_body(pool, records, reactants, include_ions).contains(x) <==> reactant_elements(
            records,
            reactants,
        ).contains(x) && x != electron()
}

/// The chosen products and element pool of an equilibrium problem over
/// species records.
pub struct RecordProducts {
    /// Indices of the possible products: gas species first, then condensed
    /// ones.
    pub species: Vec<usize>,
    /// How many of `species` are gas species.
    pub gas_count: usize,
    /// Element symbols: sorted, the electron (if any) last.
    pub elements: Vec<String>,
}

/// Whether `v` holds the text `x`.
fn texts_contain(v: &Vec<String>, x: &String) -> (r: bool)
    ensures
        r == texts(v@).contains(x@),
{
    let mut j: usize = 0;
    while j < v.len()
        invariant
            j <= v@.len(),
            forall|k: int| 0 <= k < j ==> v@[k]@ != x@,
        decreases v@.len() - j,
    {
        if v[j] == *x {
            assert(texts(v@)[j as int] == x@);
            return true;
        }
        j = j + 1;
    }
    proof {
        assert forall|k: int| 0 <= k < texts(v@).len() implies texts(v@)[k] != x@ by {
            assert(texts(v@)[k] == v@[k]@);
        }
    }
    false
}

/// The element symbols of the reactants, reactant by reactant.
fn collect_reactant_elements(records: &[Entry], reactants: &[usize]) -> (r: Vec<String>)
    requires
        forall|j: int| 0 <= j < reactants@.len() ==> #[trigger] reactants@[j] < records@.len(),
    ensures
        texts(r@) == reactant_elements(records@, reactants@),
{
    let mut out: Vec<String> = Vec::new();
    let mut j: usize = 0;
    proof {
        assert(reactants@.take(0) =~= Seq::<usize>::empty());
        assert(texts(out@) =~= Seq::<Seq<char>>::empty());
    }
    while j < reactants.len()
        invariant
            j <= reactants@.len(),
            forall|jj: int| 0 <= jj < reactants@.len() ==> #[trigger] reactants@[jj] < records@.len(),
            texts(out@) == reactant_elements(records@, reactants@.take(j as int)),
        decreases reactants@.len() - j,
    {
        let rec = &records[reactants[j]];
        let cs = &rec.metadata.constituents;
        let ghost start = texts(out@);
        let mut k: usize = 0;
        proof {
            assert(start + elements_of(*rec).take(0) =~= start);
        }
        while k < cs.len()
            invariant
                k <= cs@.len(),
                cs@ == rec.metadata.constituents@,
                texts(out@) == start + elements_of(*rec).take(k as int),
            decreases cs@.len() - k,
        {
            let ghost before = out@;
            out.push(cs[k].element.clone());
            assert(elements_of(*rec)[k as int] == cs@[k as int].element@);
            assert(texts(out@) =~= texts(before).push(cs@[k as int].element@));
            assert(elements_of(*rec).take(k + 1) =~= elements_of(*rec).take(k as int).push(
                elements_of(*rec)[k as int],
            ));
            assert(start + elements_of(*rec).take(k + 1) =~= (start + elements_of(*rec).take(
                k as int,
            )).push(elements_of(*rec)[k as int]));
            k = k + 1;
        }
        proof {
            assert(elements_of(*rec).take(cs@.len() as int) =~= elements_of(*rec));
            let t = reactants@.take(j + 1);
            assert(t.drop_last() =~= reactants@.take(j as int));
            assert(t.last() == reactants@[j as int]);
        }
        j = j + 1;
    }
    proof {
        assert(reactants@.take(reactants@.len() as int) =~= reactants@);
    }
    out
}

/// Adds `x` to the strictly sorted `pool`, where it belongs, unless it is
/// there already.
fn insert_sorted(pool: &mut Vec<String>, x: &String)
    requires
        strictly_sorted(texts(old(pool)@)),
    ensures
        strictly_sorted(texts(final(pool)@)),
        forall|y: Seq<char>|
            texts(final(pool)@).contains(y) <==> texts(old(pool)@).contains(y) || y == x@,
{
    let ghost old_texts = texts(pool@);
    let mut i: usize = 0;
    while i < pool.len() && text_lt(pool[i].as_str(), x.as_str())
        invariant
            i <= pool@.len(),
            pool@ == old(pool)@,
            old_texts == texts(pool@),
            forall|a: int| 0 <= a < i ==> lex_lt(#[trigger] old_texts[a], x@),
        decreases pool@.len() - i,
    {
        assert(old_texts[i as int] == pool@[i as int]@);
        i = i + 1;
    }
    if i < pool.len() && pool[i] == *x {
        assert(old_texts[i as int] == x@);
        return;
    }
    proof {
        if i < pool@.len() {
            assert(old_texts[i as int] == pool@[i as int]@);
            lemma_lex_total(old_texts[i as int], x@);
        }
    }
    let ghost before = pool@;
    pool.insert(i, x.clone());
    proof {
        let t = texts(pool@);
        assert(t =~= old_texts.insert(i as int, x@));
        assert forall|a: int, b: int| 0 <= a < b < t.len() implies lex_lt(
            #[trigger] t[a],
            #[trigger] t[b],
        ) by {
            if b < i {
                assert(t[a] == old_texts[a] && t[b] == old_texts[b]);
            } else if b == i {
                assert(t[a] == old_texts[a] && t[b] == x@);
            } else if a == i {
                assert(t[a] == x@ && t[b] == old_texts[b - 1]);
                if b - 1 > i {
                    lemma_lex_transitive(x@, old_texts[i as int], old_texts[b - 1]);
                }
            } else if a < i {
                assert(t[a] == old_texts[a] && t[b] == old_texts[b - 1]);
            } else {
                assert(t[a] == old_texts[a - 1] && t[b] == old_texts[b - 1]);
            }
        }
        assert forall|y: Seq<char>| t.contains(y) <==> old_texts.contains(y) || y == x@ by {
            if t.contains(y) {
                let k = choose|k: int| 0 <= k < t.len() && t[k] == y;
                if k < i {
                    assert(old_texts[k] == y);
                } else if k > i {
                    assert(old_texts[k - 1] == y);
                }
            }
            if old_texts.contains(y) {
                let k = choose|k: int| 0 <= k < old_texts.len() && old_texts[k] == y;
                if k < i {
                    assert(t[k] == y);
                } else {
                    assert(t[k + 1] == y);
                }
            }
            if y == x@ {
                assert(t[i as int] == y);
            }
        }
    }
}

/// Whether record `i` can be a product (see `is_record_candidate`).
fn record_candidate(
    records: &[Entry],
    available: &Vec<String>,
    include_ions: bool,
    only: Option<&[usize]>,
    i: usize,
    Ghost(reactants): Ghost<Seq<usize>>,
) -> (r: bool)
    requires
        i < records@.len(),
        texts(available@) == reactant_elements(records@, reactants),
    ensures
        r == is_record_candidate(records@, reactants, include_ions, only_view(only), i),
{
    let cs = &records[i].metadata.constituents;
    let electron_symbol = String::from_str("E");
    proof {
        reveal_strlit("E");
        assert(electron_symbol@ =~= electron());
    }
    let ghost els = elements_of(records@[i as int]);
    let mut k: usize = 0;
    while k < cs.len()
        invariant
            k <= cs@.len(),
            cs@ == records@[i as int].metadata.constituents@,
            els == elements_of(records@[i as int]),
            electron_symbol@ == electron(),
            texts(available@) == reactant_elements(records@, reactants),
            forall|kk: int|
                0 <= kk < k ==> record_available(records@, reactants, include_ions, #[trigger] els[kk]),
        decreases cs@.len() - k,
    {
        let e = &cs[k].element;
        assert(els[k as int] == e@);
        if !(texts_contain(available, e) || (include_ions && *e == electron_symbol)) {
            return false;
        }
        k = k + 1;
    }
    match only {
        Some(list) => list_contains_index(list, i),
        None => true,
    }
}

/// The view of an optional list of record indices.
pub open spec fn only_view(only: Option<&[usize]>) -> Option<Seq<usize>> {
    match only {
        Some(l) => Some(l@),
        None => None,
    }
}

fn list_contains_index(list: &[usize], i: usize) -> (r: bool)
    ensures
        r == list@.contains(i),
{
    let mut j: usize = 0;
    while j < list.len()
        invariant
            j <= list@.len(),
            forall|k: int| 0 <= k < j ==> list@[k] != i,
        decreases list@.len() - j,
    {
        if list[j] == i {
            return true;
        }
        j = j + 1;
    }
    false
}

/// Whether any reactant record lists the electron among its elements, i.e.
/// is an ion: such reactants need ions to be enabled.
pub fn reactant_records_have_ions(records: &[Entry], reactants: &[usize]) -> (r: bool)
    requires
        forall|j: int| 0 <= j < reactants@.len() ==> #[trigger] reactants@[j] < records@.len(),
    ensures
        r == reactant_elements(records@, reactants@).contains(electron()),
{
    let available = collect_reactant_elements(records, reactants);
    let electron_symbol = String::from_str("E");
    proof {
        reveal_strlit("E");
        assert(electron_symbol@ =~= electron());
    }
    texts_contain(&available, &electron_symbol)
}

/// Chooses the species and elements of an equilibrium problem over species
/// records (`records`, with the reactants given by index): the elements are
/// those of the reactants (plus the electron when ions are allowed); a
/// record can be a product when it is made of those elements only and, if
/// `only` is given, is listed there. Gas products come first, then, when
/// `include_condensed` is set, the condensed ones, each in record order.
/// Reactants that carry electrons need `include_ions`.
pub fn select_record_products(
    records: &[Entry],
    reactants: &[usize],
    include_condensed: bool,
    include_ions: bool,
    only: Option<&[usize]>,
) -> (r: RecordProducts)
    requires
        forall|j: int| 0 <= j < reactants@.len() ==> #[trigger] reactants@[j] < records@.len(),
        include_ions || !reactant_elements(records@, reactants@).contains(electron()),
    ensures
        r.species@ == spec_gas_products(records@, reactants@, include_ions, only_view(only)) + (
        if include_condensed {
            spec_condensed_products(records@, reactants@, include_ions, only_view(only))
        } else {
            Seq::empty()
        }),
        r.gas_count == spec_gas_products(records@, reactants@, include_ions, only_view(only)).len(),
        is_record_pool(texts(r.elements@), records@, reactants@, include_ions),
{
    let available = collect_reactant_elements(records, reactants);
    let ghost gp = gas_pred(records@, reactants@, include_ions, only_view(only));
    let ghost cp = condensed_pred(records@, reactants@, include_ions, only_view(only));
    let ghost idx = record_indices(records@.len());
    let mut gas: Vec<usize> = Vec::new();
    let mut condensed: Vec<usize> = Vec::new();
    let mut i: usize = 0;
    proof {
        reveal_with_fuel(Seq::<_>::filter, 1);
        assert(idx.take(0) =~= Seq::<usize>::empty());
    }
    while i < records.len()
        invariant
            i <= records@.len(),
            idx == record_indices(records@.len()),
            texts(available@) == reactant_elements(records@, reactants@),
            gp == gas_pred(records@, reactants@, include_ions, only_view(only)),
            cp == condensed_pred(records@, reactants@, include_ions, only_view(only)),
            gas@ == idx.take(i as int).filter(gp),
            condensed@ == idx.take(i as int).filter(cp),
        decreases records@.len() - i,
    {
        let keep = record_candidate(records, &available, include_ions, only, i, Ghost(reactants@));
        let gaseous = records[i].metadata.phase == 0;
        proof {
            assert(idx[i as int] == i);
            assert(idx.take(i + 1) =~= idx.take(i as int).push(i));
            idx.take(i as int).lemma_filter_push(i, gp);
            idx.take(i as int).lemma_filter_push(i, cp);
            assert(gp(i) == (keep && gaseous));
            assert(cp(i) == (keep && !gaseous));
        }
        if keep {
            if gaseous {
                gas.push(i);
            } else {
                condensed.push(i);
            }
        }
        i = i + 1;
    }
    proof {
        assert(idx.take(records@.len() as int) =~= idx);
    }
    let gas_count = gas.len();
    let mut species = gas;
    if include_condensed {
        species.append(&mut condensed);
    }
    let electron_symbol = String::from_str("E");
    proof {
        reveal_strlit("E");
        assert(electron_symbol@ =~= electron());
    }
    let mut elements: Vec<String> = Vec::new();
    let mut k: usize = 0;
    proof {
        assert(texts(elements@) =~= Seq::<Seq<char>>::empty());
    }
    while k < available.len()
        invariant
            k <= available@.len(),
            electron_symbol@ == electron(),
            strictly_sorted(texts(elements@)),
            forall|y: Seq<char>|
                texts(elements@).contains(y) <==> texts(available@).take(k as int).contains(y) && y
                    != electron(),
        decreases available@.len() - k,
    {
        let ghost tk = texts(available@).take(k as int);
        assert(texts(available@).take(k + 1) =~= tk.push(available@[k as int]@));
        if available[k] != electron_symbol {
            insert_sorted(&mut elements, &available[k]);
        }
        proof {
            assert forall|y: Seq<char>|
                texts(elements@).contains(y) <==> texts(available@).take(k + 1).contains(y) && y
                    != electron() by {
                let t1 = tk.push(available@[k as int]@);
                if t1.contains(y) && !tk.contains(y) {
                    let w = choose|w: int| 0 <= w < t1.len() && t1[w] == y;
                    assert(w == tk.len());
                }
                if tk.contains(y) {
                    let w = choose|w: int| 0 <= w < tk.len() && tk[w] == y;
                    assert(t1[w] == y);
                }
                if y == available@[k as int]@ {
                    assert(t1[tk.len() as int] == y);
                }
            }
        }
        k = k + 1;
    }
    proof {
        assert(texts(available@).take(available@.len() as int) =~= texts(available@));
    }
    let ghost body = texts(elements@);
    if include_ions || texts_contain(&available, &electron_symbol) {
        elements.push(electron_symbol);
        assert(texts(elements@) =~= body.push(electron()));
        assert(texts(elements@).drop_last() =~= body);
    }
    RecordProducts { species, gas_count, elements }
}

/// Every possible product is made of elements of the pool only.
pub proof fn lemma_record_products_use_pool_elements(
    pool: Seq<Seq<char>>,
    records: Seq<Entry>,
    reactants: Seq<usize>,
    include_condensed: bool,
    include_ions: bool,
    only: Option<Seq<usize>>,
    i: usize,
    k: int,
)
    requires
        is_record_pool(pool, records, reactants, include_ions),
        spec_gas_products(records, reactants, include_ions, only).contains(i) || (include_condensed
            && spec_condensed_products(records, reactants, include_ions, only).contains(i)),
        0 <= k < elements_of(records[i as int]).len(),
    ensures
        pool.contains(elements_of(records[i as int])[k]),
{
    broadcast use Seq::lemma_filter_pred;

    let idx = record_indices(records.len());
    let gp = gas_pred(records, reactants, include_ions, only);
    let cp = condensed_pred(records, reactants, include_ions, only);
    if spec_gas_products(records, reactants, include_ions, only).contains(i) {
        let w = choose|w: int| 0 <= w < idx.filter(gp).len() && idx.filter(gp)[w] == i;
        assert(gp(idx.filter(gp)[w]));
    } else {
        let w = choose|w: int| 0 <= w < idx.filter(cp).len() && idx.filter(cp)[w] == i;
        assert(cp(idx.filter(cp)[w]));
    }
    let x = elements_of(records[i as int])[k];
    assert(record_available(records, reactants, include_ions, x));
    let body = pool_body(pool, records, reactants, include_ions);
    if x == electron() {
        assert(pool[pool.len() - 1] == x);
    } else {
        assert(reactant_elements(records, reactants).contains(x));
        assert(body.contains(x));
        let w = choose|w: int| 0 <= w < body.len() && body[w] == x;
        assert(pool[w] == x);
    }
}

/// Atoms of `element` in one molecule of the record `e` (the last listing
/// counts), zero when it does not list that element.
pub open spec fn record_count(e: Entry, element: Seq<char>) -> (NumberKind, bool, nat, int)
    decreases e.metadata.constituents@.len(),
{
    count_among(e.metadata.constituents@, element)
}

pub open spec fn count_among(cs: Seq<ElementAmount>, element: Seq<char>) -> (
    NumberKind,
    bool,
    nat,
    int,
)
    decreases cs.len(),
{
    if cs.len() == 0 {
        (NumberKind::Finite, false, 0, 0)
    } else if cs.last().element@ == element {
        (
            cs.last().moles.kind,
            cs.last().moles.negative,
            cs.last().moles.mantissa as nat,
            cs.last().moles.exponent as int,
        )
    } else {
        count_among(cs.drop_last(), element)
    }
}

/// The stoichiometric matrix of an equilibrium problem over species
/// records: row `j` holds, for each element `elements[i]`, how many of its
/// atoms one molecule of the record `species[j]` is made of.
pub fn record_stoichiometry(records: &[Entry], species: &[usize], elements: &[String]) -> (r: Vec<
    Vec<Decimal>,
>)
    requires
        forall|j: int| 0 <= j < species@.len() ==> #[trigger] species@[j] < records@.len(),
    ensures
        r@.len() == species@.len(),
        forall|j: int| 0 <= j < species@.len() ==> (#[trigger] r@[j])@.len() == elements@.len(),
        forall|j: int, i: int|
            0 <= j < species@.len() && 0 <= i < elements@.len() ==> decimal_is(
                #[trigger] r@[j]@[i],
                record_count(records@[species@[j] as int], elements@[i]@),
            ),
{
    let mut rows: Vec<Vec<Decimal>> = Vec::new();
    let mut j: usize = 0;
    while j < species.len()
        invariant
            j <= species@.len(),
            forall|jj: int| 0 <= jj < species@.len() ==> #[trigger] species@[jj] < records@.len(),
            rows@.len() == j,
            forall|jj: int| 0 <= jj < j ==> (#[trigger] rows@[jj])@.len() == elements@.len(),
            forall|jj: int, i: int|
                0 <= jj < j && 0 <= i < elements@.len() ==> decimal_is(
                    #[trigger] rows@[jj]@[i],
                    record_count(records@[species@[jj] as int], elements@[i]@),
                ),
        decreases species@.len() - j,
    {
        let rec = &records[species[j]];
        let mut row: Vec<Decimal> = Vec::new();
        let mut i: usize = 0;
        while i < elements.len()
            invariant
                i <= elements@.len(),
                j < species@.len(),
                *rec == records@[species@[j as int] as int],
                row@.len() == i,
                forall|ii: int|
                    0 <= ii < i ==> decimal_is(
                        #[trigger] row@[ii],
                        record_count(records@[species@[j as int] as int], elements@[ii]@),
                    ),
            decreases elements@.len() - i,
        {
            let c = count_in_record(rec, &elements[i]);
            row.push(c);
            i = i + 1;
        }
        let ghost before = rows@;
        rows.push(row);
        assert(forall|jj: int| 0 <= jj < j ==> rows@[jj] == before[jj]);
        j = j + 1;
    }
    rows
}

fn count_in_record(rec: &Entry, element: &String) -> (r: Decimal)
    ensures
        decimal_is(r, record_count(*rec, element@)),
{
    let cs = &rec.metadata.constituents;
    let mut count = Decimal { kind: NumberKind::Finite, negative: false, mantissa: 0, exponent: 0 };
    let mut k: usize = 0;
    proof {
        assert(cs@.take(0) =~= Seq::<ElementAmount>::empty());
    }
    while k < cs.len()
        invariant
            k <= cs@.len(),
            cs@ == rec.metadata.constituents@,
            decimal_is(count, count_among(cs@.take(k as int), element@)),
        decreases cs@.len() - k,
    {
        proof {
            assert(cs@.take(k + 1).drop_last() =~= cs@.take(k as int));
        }
        if cs[k].element == *element {
            count = cs[k].moles;
        }
        k = k + 1;
    }
    proof {
        assert(cs@.take(cs@.len() as int) =~= cs@);
    }
    count
}

/// The count of an element in a constituent list is what the last slot
/// listing it says.
proof fn lemma_count_among_slot(cs: Seq<ElementAmount>, s: int)
    requires
        0 <= s < cs.len(),
        forall|t: int| s < t < cs.len() ==> (#[trigger] cs[t]).element@ != cs[s].element@,
    ensures
        decimal_is(cs[s].moles, count_among(cs, cs[s].element@)),
    decreases cs.len(),
{
    if s < cs.len() - 1 {
        let d = cs.drop_last();
        assert(cs.last() == cs[cs.len() - 1]);
        assert forall|t: int| s < t < d.len() implies (#[trigger] d[t]).element@ != d[s].element@ by {
            assert(d[t] == cs[t]);
        }
        lemma_count_among_slot(d, s);
        assert(d[s] == cs[s]);
    }
}

proof fn lemma_count_among_absent(cs: Seq<ElementAmount>, element: Seq<char>)
    requires
        forall|t: int| 0 <= t < cs.len() ==> (#[trigger] cs[t]).element@ != element,
    ensures
        count_among(cs, element) == (NumberKind::Finite, false, 0nat, 0int),
    decreases cs.len(),
{
    if cs.len() > 0 {
        let d = cs.drop_last();
        assert(cs.last() == cs[cs.len() - 1]);
        assert forall|t: int| 0 <= t < d.len() implies (#[trigger] d[t]).element@ != element by {
            assert(d[t] == cs[t]);
        }
        lemma_count_among_absent(d, element);
    }
}

/// A record's count of an element is the amount written in the slot that
/// lists it, wherever that slot stands (the last one, when it is listed
/// twice), and zero when no slot lists it.
pub proof fn lemma_record_count_reads_the_slot(e: Entry, s: int, element: Seq<char>)
    ensures
        0 <= s < e.metadata.constituents@.len() && e.metadata.constituents@[s].element@ == element
            && (forall|t: int|
            s < t < e.metadata.constituents@.len() ==> (#[trigger] e.metadata.constituents@[t]).element@
                != element) ==> decimal_is(
            e.metadata.constituents@[s].moles,
            record_count(e, element),
        ),
        (forall|t: int|
            0 <= t < e.metadata.constituents@.len() ==> (#[trigger] e.metadata.constituents@[t]).element@
                != element) ==> record_count(e, element) == (NumberKind::Finite, false, 0nat, 0int),
{
    let cs = e.metadata.constituents@;
    if 0 <= s < cs.len() && cs[s].element@ == element && (forall|t: int|
        s < t < cs.len() ==> (#[trigger] cs[t]).element@ != element) {
        lemma_count_among_slot(cs, s);
    }
    if forall|t: int| 0 <= t < cs.len() ==> (#[trigger] cs[t]).element@ != element {
        lemma_count_among_absent(cs, element);
    }
}

} // verus!
