use vstd::prelude::*;
use crate::species::{Species, spec_all, spec_constituents, spec_index, spec_is_charged};

verus! {

/// Whether `e` is among the constituents of `s`.
pub open spec fn uses_element(s: Species, e: Species) -> bool {
    exists|i: int|
        0 <= i < spec_constituents(s).len() && (#[trigger] spec_constituents(s)[i]).1 == e
}

/// Whether some reactant is made with element `e`.
pub open spec fn in_reactants(reactants: Seq<Species>, e: Species) -> bool {
    exists|j: int| 0 <= j < reactants.len() && uses_element(#[trigger] reactants[j], e)
}

/// The elements a problem has to work with: those of the reactants, plus
/// the electron when ions are allowed.
pub open spec fn available(reactants: Seq<Species>, include_ions: bool, e: Species) -> bool {
    in_reactants(reactants, e) || (include_ions && e == Species::E)
}

/// A species can be a product when all of its constituents are available
/// and, if a product list `only` is given, it is on that list.
pub open spec fn is_candidate(
    reactants: Seq<Species>,
    include_ions: bool,
    only: Option<Seq<Species>>,
    s: Species,
) -> bool {
    &&& forall|i: int|
        0 <= i < spec_constituents(s).len() ==> available(
            reactants,
            include_ions,
            (#[trigger] spec_constituents(s)[i]).1,
        )
    &&& (only matches Some(list) ==> list.contains(s))
}

/// The elements other than the electron, in declaration order.
pub open spec fn spec_elements() -> Seq<Species> {
    seq![Species::H, Species::C, Species::O, Species::N]
}

/// The possible products, in declaration order.
pub open spec fn spec_candidates(
    reactants: Seq<Species>,
    include_ions: bool,
    only: Option<Seq<Species>>,
) -> Seq<Species> {
    spec_all().filter(candidate_pred(reactants, include_ions, only))
}

pub open spec fn candidate_pred(
    reactants: Seq<Species>,
    include_ions: bool,
    only: Option<Seq<Species>>,
) -> spec_fn(Species) -> bool {
    |s: Species| is_candidate(reactants, include_ions, only, s)
}

pub open spec fn available_pred(reactants: Seq<Species>, include_ions: bool) -> spec_fn(
    Species,
) -> bool {
    |e: Species| available(reactants, include_ions, e)
}

/// The element pool: the available elements in declaration order, with the
/// electron, when available, last.
pub open spec fn spec_pool(reactants: Seq<Species>, include_ions: bool) -> Seq<Species> {
    spec_elements().filter(available_pred(reactants, include_ions)) + if available(
        reactants,
        include_ions,
        Species::E,
    ) {
        seq![Species::E]
    } else {
        Seq::empty()
    }
}

/// How many atoms of `e` the constituent list `cs` gives (the last entry
/// for `e` counts), 0 if none.
pub open spec fn count_in(cs: Seq<(i32, Species)>, e: Species) -> int
    decreases cs.len(),
{
    if cs.len() == 0 {
        0
    } else if cs.last().1 == e {
        cs.last().0 as int
    } else {
        count_in(cs.drop_last(), e)
    }
}

/// Atoms of element `e` in one molecule of `s`.
pub open spec fn spec_count(s: Species, e: Species) -> int {
    count_in(spec_constituents(s), e)
}

/// The chosen products and the element pool of an equilibrium problem.
pub struct ProductSet {
    /// Possible products, in declaration order.
    pub species: Vec<Species>,
    /// Elements, in declaration order, the electron (if any) last.
    pub elements: Vec<Species>,
}

/// Whether element `e` is among the constituents of `s`.
fn uses(s: Species, e: Species) -> (r: bool)
    ensures
        r == uses_element(s, e),
{
    let cs = s.constituents();
    let mut i: usize = 0;
    while i < cs.len()
        invariant
            cs@ == spec_constituents(s),
            i <= cs@.len(),
            forall|k: int| 0 <= k < i ==> (#[trigger] cs@[k]).1 != e,
        decreases cs@.len() - i,
    {
        if cs[i].1 == e {
            return true;
        }
        i = i + 1;
    }
    false
}

/// Whether some reactant is made with element `e`.
fn reactants_use(reactants: &[Species], e: Species) -> (r: bool)
    ensures
        r == in_reactants(reactants@, e),
{
    let mut j: usize = 0;
    while j < reactants.len()
        invariant
            j <= reactants@.len(),
            forall|k: int| 0 <= k < j ==> !uses_element(#[trigger] reactants@[k], e),
        decreases reactants@.len() - j,
    {
        if uses(reactants[j], e) {
            return true;
        }
        j = j + 1;
    }
    false
}

/// Whether `list` holds `s`.
fn list_contains(list: &[Species], s: Species) -> (r: bool)
    ensures
        r == list@.contains(s),
{
    let mut j: usize = 0;
    while j < list.len()
        invariant
            j <= list@.len(),
            forall|k: int| 0 <= k < j ==> list@[k] != s,
        decreases list@.len() - j,
    {
        if list[j] == s {
            return true;
        }
        j = j + 1;
    }
    false
}

/// Whether any reactant carries electrons, i.e. is an ion (or is the
/// electron itself): such reactants need ions to be enabled.
pub fn reactants_have_ions(reactants: &[Species]) -> (r: bool)
    ensures
        r == in_reactants(reactants@, Species::E),
{
    reactants_use(reactants, Species::E)
}

/// Whether `s` can be a product (see `is_candidate`).
fn candidate(reactants: &[Species], include_ions: bool, only: Option<&[Species]>, s: Species) -> (r:
    bool)
    ensures
        r == is_candidate(
            reactants@,
            include_ions,
            match only {
                Some(l) => Some(l@),
                None => None,
            },
            s,
        ),
{
    let cs = s.constituents();
    let mut i: usize = 0;
    while i < cs.len()
        invariant
            cs@ == spec_constituents(s),
            i <= cs@.len(),
            forall|k: int|
                0 <= k < i ==> available(reactants@, include_ions, (#[trigger] cs@[k]).1),
        decreases cs@.len() - i,
    {
        let e = cs[i].1;
        if !(reactants_use(reactants, e) || (include_ions && e == Species::E)) {
            return false;
        }
        i = i + 1;
    }
    match only {
        Some(list) => list_contains(list, s),
        None => true,
    }
}

/// The view of an optional product list.
pub open spec fn only_view(only: Option<&[Species]>) -> Option<Seq<Species>> {
    match only {
        Some(l) => Some(l@),
        None => None,
    }
}

/// Chooses the species and elements of an equilibrium problem: the
/// elements are those of the reactants (plus the electron when ions are
/// allowed), and a species can be a product when it is made of those
/// elements only and, if `only` is given, is listed there.
/// Reactants that carry electrons need `include_ions`.
pub fn select_products(reactants: &[Species], include_ions: bool, only: Option<&[Species]>) -> (r:
    ProductSet)
    requires
        include_ions || !in_reactants(reactants@, Species::E),
    ensures
        r.species@ == spec_candidates(reactants@, include_ions, only_view(only)),
        r.elements@ == spec_pool(reactants@, include_ions),
{
    let all = Species::all();
    let ghost pred = candidate_pred(reactants@, include_ions, only_view(only));
    let mut species: Vec<Species> = Vec::new();
    let mut i: usize = 0;
    proof {
        reveal_with_fuel(Seq::<_>::filter, 1);
        assert(spec_all().take(0) =~= Seq::<Species>::empty());
    }
    while i < all.len()
        invariant
            all@ == spec_all(),
            i <= all@.len(),
            pred == candidate_pred(reactants@, include_ions, only_view(only)),
            species@ == spec_all().take(i as int).filter(pred),
        decreases all@.len() - i,
    {
        let s = all[i];
        let keep = candidate(reactants, include_ions, only, s);
        assert(keep == pred(s));
        proof {
            assert(spec_all().take(i + 1) =~= spec_all().take(i as int).push(s));
            spec_all().take(i as int).lemma_filter_push(s, pred);
        }
        if keep {
            species.push(s);
        }
        i = i + 1;
    }
    proof {
        assert(spec_all().take(all@.len() as int) =~= spec_all());
    }
    let elements_in_order = [Species::H, Species::C, Species::O, Species::N];
    let ghost avail = available_pred(reactants@, include_ions);
    let mut elements: Vec<Species> = Vec::new();
    let mut k: usize = 0;
    proof {
        assert(elements_in_order@ =~= spec_elements());
        assert(spec_elements().take(0) =~= Seq::<Species>::empty());
    }
    while k < 4
        invariant
            elements_in_order@ == spec_elements(),
            k <= 4,
            avail == available_pred(reactants@, include_ions),
            elements@ == spec_elements().take(k as int).filter(avail),
        decreases 4 - k,
    {
        let e = elements_in_order[k];
        proof {
            assert(spec_elements().take(k + 1) =~= spec_elements().take(k as int).push(e));
            spec_elements().take(k as int).lemma_filter_push(e, avail);
        }
        let keep = reactants_use(reactants, e);
        assert(keep == avail(e));
        if keep {
            elements.push(e);
        }
        k = k + 1;
    }
    proof {
        assert(spec_elements().take(4) =~= spec_elements());
    }
    if include_ions || reactants_use(reactants, Species::E) {
        elements.push(Species::E);
    }
    assert(elements@ =~= spec_pool(reactants@, include_ions));
    ProductSet { species, elements }
}

/// Atoms of element `e` in one molecule of `s`.
fn count_of(s: Species, e: Species) -> (r: i32)
    ensures
        r == spec_count(s, e),
{
    let cs = s.constituents();
    let mut count: i32 = 0;
    let mut i: usize = 0;
    proof {
        assert(cs@.take(0) =~= Seq::<(i32, Species)>::empty());
    }
    while i < cs.len()
        invariant
            cs@ == spec_constituents(s),
            i <= cs@.len(),
            count == count_in(cs@.take(i as int), e),
        decreases cs@.len() - i,
    {
        proof {
            assert(cs@.take(i + 1).drop_last() =~= cs@.take(i as int));
        }
        if cs[i].1 == e {
            count = cs[i].0;
        }
        i = i + 1;
    }
    proof {
        assert(cs@.take(cs@.len() as int) =~= cs@);
    }
    count
}

/// The stoichiometric matrix of an equilibrium problem: row `j` holds, for
/// each element `elements[i]`, how many of its atoms one molecule of
/// `species[j]` is made of.
pub fn stoichiometry(species: &[Species], elements: &[Species]) -> (r: Vec<Vec<i32>>)
    ensures
        r@.len() == species@.len(),
        forall|j: int|
            0 <= j < species@.len() ==> (#[trigger] r@[j])@.len() == elements@.len(),
        forall|j: int, i: int|
            0 <= j < species@.len() && 0 <= i < elements@.len() ==> #[trigger] r@[j]@[i]
                == spec_count(species@[j], elements@[i]),
{
    let mut rows: Vec<Vec<i32>> = Vec::new();
    let mut j: usize = 0;
    while j < species.len()
        invariant
            j <= species@.len(),
            rows@.len() == j,
            forall|jj: int| 0 <= jj < j ==> (#[trigger] rows@[jj])@.len() == elements@.len(),
            forall|jj: int, i: int|
                0 <= jj < j && 0 <= i < elements@.len() ==> #[trigger] rows@[jj]@[i]
                    == spec_count(species@[jj], elements@[i]),
        decreases species@.len() - j,
    {
        let mut row: Vec<i32> = Vec::new();
        let mut i: usize = 0;
        while i < elements.len()
            invariant
                i <= elements@.len(),
                j < species@.len(),
                row@.len() == i,
                forall|ii: int| 0 <= ii < i ==> row@[ii] == spec_count(species@[j as int], elements@[ii]),
            decreases elements@.len() - i,
        {
            let c = count_of(species[j], elements[i]);
            row.push(c);
            i = i + 1;
        }
        let ghost before = rows@;
        rows.push(row);
        assert(forall|jj: int| 0 <= jj < j ==> rows@[jj] == before[jj]);
        j = j + 1;
    }
    rows
}

/// Every constituent of every species is one of the four elements or the
/// electron.
pub proof fn lemma_constituents_are_elements(s: Species)
    ensures
        forall|i: int|
            0 <= i < spec_constituents(s).len() ==> spec_elements().contains(
                (#[trigger] spec_constituents(s)[i]).1,
            ) || spec_constituents(s)[i].1 == Species::E,
{
    assert(spec_elements()[0] == Species::H);
    assert(spec_elements()[1] == Species::C);
    assert(spec_elements()[2] == Species::O);
    assert(spec_elements()[3] == Species::N);
}

/// Every product is made of elements of the pool only.
pub proof fn lemma_products_use_pool_elements(
    reactants: Seq<Species>,
    include_ions: bool,
    only: Option<Seq<Species>>,
    s: Species,
    i: int,
)
    requires
        spec_candidates(reactants, include_ions, only).contains(s),
        0 <= i < spec_constituents(s).len(),
    ensures
        spec_pool(reactants, include_ions).contains(spec_constituents(s)[i].1),
{
    let pred = candidate_pred(reactants, include_ions, only);
    broadcast use Seq::lemma_filter_pred;

    let k = choose|k: int|
        0 <= k < spec_all().filter(pred).len() && spec_all().filter(pred)[k] == s;
    assert(pred(spec_all().filter(pred)[k]));
    let e = spec_constituents(s)[i].1;
    assert(available(reactants, include_ions, e));
    lemma_constituents_are_elements(s);
    let pool = spec_pool(reactants, include_ions);
    let first = spec_elements().filter(available_pred(reactants, include_ions));
    if e == Species::E {
        assert(pool[pool.len() - 1] == Species::E);
    } else {
        let m = choose|m: int| 0 <= m < spec_elements().len() && spec_elements()[m] == e;
        spec_elements().lemma_filter_contains(available_pred(reactants, include_ions), m);
        let w = choose|w: int| 0 <= w < first.len() && first[w] == e;
        assert(pool[w] == e);
    }
}

/// With no product list given, every reactant is a possible product.
pub proof fn lemma_reactants_are_products(reactants: Seq<Species>, include_ions: bool, j: int)
    requires
        0 <= j < reactants.len(),
    ensures
        spec_candidates(reactants, include_ions, None).contains(reactants[j]),
{
    let r = reactants[j];
    crate::species::lemma_all_index();
    assert forall|i: int| 0 <= i < spec_constituents(r).len() implies available(
        reactants,
        include_ions,
        (#[trigger] spec_constituents(r)[i]).1,
    ) by {
        assert(uses_element(r, spec_constituents(r)[i].1));
    }
    assert(spec_all()[spec_index(r)] == r);
    spec_all().lemma_filter_contains(candidate_pred(reactants, include_ions, None), spec_index(r));
}

pub open spec fn strictly_increasing(s: Seq<Species>) -> bool {
    forall|a: int, b: int| 0 <= a < b < s.len() ==> spec_index(#[trigger] s[a]) < spec_index(#[trigger] s[b])
}

/// Filtering keeps the order of a strictly increasing sequence, and keeps
/// only its elements.
proof fn lemma_filter_keeps_order(s: Seq<Species>, p: spec_fn(Species) -> bool)
    requires
        strictly_increasing(s),
    ensures
        strictly_increasing(s.filter(p)),
        forall|k: int| 0 <= k < s.filter(p).len() ==> s.contains(#[trigger] s.filter(p)[k]),
    decreases s.len(),
{
    reveal(Seq::filter);
    if s.len() > 0 {
        let d = s.drop_last();
        assert(strictly_increasing(d)) by {
            assert forall|a: int, b: int| 0 <= a < b < d.len() implies spec_index(#[trigger] d[a]) < spec_index(#[trigger] d[b]) by {
                assert(d[a] == s[a] && d[b] == s[b]);
            }
        }
        lemma_filter_keeps_order(d, p);
        let f = d.filter(p);
        assert forall|k: int| 0 <= k < f.len() implies spec_index(#[trigger] f[k]) < spec_index(s.last()) by {
            let m = choose|m: int| 0 <= m < d.len() && d[m] == f[k];
            assert(s[m] == d[m]);
        }
        assert forall|k: int| 0 <= k < f.len() implies s.contains(#[trigger] f[k]) by {
            let m = choose|m: int| 0 <= m < d.len() && d[m] == f[k];
            assert(s[m] == d[m]);
        }
        if p(s.last()) {
            let g = f.push(s.last());
            assert forall|a: int, b: int| 0 <= a < b < g.len() implies spec_index(#[trigger] g[a]) < spec_index(#[trigger] g[b]) by {
                if b < f.len() {
                    assert(g[a] == f[a] && g[b] == f[b]);
                } else {
                    assert(g[a] == f[a]);
                }
            }
            assert forall|k: int| 0 <= k < g.len() implies s.contains(#[trigger] g[k]) by {
                if k < f.len() {
                    assert(g[k] == f[k]);
                } else {
                    assert(s[s.len() - 1] == g[k]);
                }
            }
        }
    }
}

/// The element pool is in strictly increasing declaration order, and the
/// electron is in it, last, exactly when it is available.
pub proof fn lemma_pool_sorted_electron_last(reactants: Seq<Species>, include_ions: bool)
    ensures
        strictly_increasing(spec_pool(reactants, include_ions)),
        spec_pool(reactants, include_ions).contains(Species::E) <==> available(
            reactants,
            include_ions,
            Species::E,
        ),
        available(reactants, include_ions, Species::E) ==> spec_pool(
            reactants,
            include_ions,
        ).last() == Species::E,
{
    let el = spec_elements();
    let p = available_pred(reactants, include_ions);
    assert(strictly_increasing(el));
    lemma_filter_keeps_order(el, p);
    let f = el.filter(p);
    let pool = spec_pool(reactants, include_ions);
    assert forall|k: int| 0 <= k < f.len() implies spec_index(#[trigger] f[k]) < 13 && f[k] != Species::E by {
        assert(el.contains(f[k]));
    }
    if available(reactants, include_ions, Species::E) {
        assert(pool =~= f.push(Species::E));
        assert forall|a: int, b: int| 0 <= a < b < pool.len() implies spec_index(#[trigger] pool[a]) < spec_index(#[trigger] pool[b]) by {
            assert(pool[a] == f[a]);
            if b < f.len() {
                assert(pool[b] == f[b]);
            }
        }
        assert(pool[pool.len() - 1] == Species::E);
    } else {
        assert(pool =~= f);
        assert forall|k: int| 0 <= k < pool.len() implies pool[k] != Species::E by {
            assert(pool[k] == f[k]);
        }
    }
}

/// With the electron last in the pool, the last column of the
/// stoichiometric matrix is nonzero exactly for the charged species.
pub proof fn lemma_electron_count_marks_ions(s: Species)
    ensures
        spec_count(s, Species::E) != 0 <==> spec_is_charged(s),
{
    reveal_with_fuel(count_in, 4);
}

/// With a product list given, every chosen product is on that list.
pub proof fn lemma_only_bounds_products(
    reactants: Seq<Species>,
    include_ions: bool,
    list: Seq<Species>,
    k: int,
)
    requires
        0 <= k < spec_candidates(reactants, include_ions, Some(list)).len(),
    ensures
        list.contains(spec_candidates(reactants, include_ions, Some(list))[k]),
{
    spec_all().lemma_filter_pred(candidate_pred(reactants, include_ions, Some(list)), k);
}

/// The species of `s` that are on `list`, in order.
pub open spec fn on_list(list: Seq<Species>) -> spec_fn(Species) -> bool {
    |x: Species| list.contains(x)
}

/// Filtering by one predicate and then another is filtering by both.
proof fn lemma_filter_filter(s: Seq<Species>, p: spec_fn(Species) -> bool, q: spec_fn(Species) -> bool, pq: spec_fn(Species) -> bool)
    requires
        forall|x: Species| #[trigger] pq(x) == (p(x) && q(x)),
    ensures
        s.filter(p).filter(q) == s.filter(pq),
    decreases s.len(),
{
    if s.len() == 0 {
        reveal_with_fuel(Seq::<_>::filter, 1);
        assert(s.filter(p) =~= Seq::<Species>::empty());
        assert(s.filter(p).filter(q) =~= Seq::<Species>::empty());
    } else {
        let d = s.drop_last();
        let x = s.last();
        assert(s =~= d.push(x));
        lemma_filter_filter(d, p, q, pq);
        d.lemma_filter_push(x, p);
        d.lemma_filter_push(x, pq);
        if p(x) {
            d.filter(p).lemma_filter_push(x, q);
        }
    }
}

/// Choosing products with a product list gives the products chosen without
/// one that are on the list, in the same order.
pub proof fn lemma_only_filters_free_choice(
    reactants: Seq<Species>,
    include_ions: bool,
    list: Seq<Species>,
)
    ensures
        spec_candidates(reactants, include_ions, Some(list)) == spec_candidates(
            reactants,
            include_ions,
            None,
        ).filter(on_list(list)),
{
    lemma_filter_filter(
        spec_all(),
        candidate_pred(reactants, include_ions, None),
        on_list(list),
        candidate_pred(reactants, include_ions, Some(list)),
    );
}

/// Atoms of the element written as the letter `el` in a chemical formula:
/// each occurrence of the letter counts the digit that follows it, or 1
/// when no digit follows.
pub open spec fn formula_atoms(f: Seq<char>, el: char) -> int
    decreases f.len(),
{
    if f.len() == 0 {
        0
    } else {
        let n: int = if f.len() > 1 && '0' <= f[1] <= '9' {
            f[1] as int - '0' as int
        } else {
            1
        };
        (if f[0] == el {
            n
        } else {
            0
        }) + formula_atoms(f.drop_first(), el)
    }
}

/// Electrons a formula's charge sign stands for: one gained for a trailing
/// `-`, one lost for a trailing `+`.
pub open spec fn formula_electrons(f: Seq<char>) -> int {
    if f.len() > 0 && f.last() == '-' {
        1
    } else if f.len() > 0 && f.last() == '+' {
        -1
    } else {
        0
    }
}

/// The atom counts of every species are those its chemical symbol writes:
/// for each element, the letters of that element in the formula with their
/// counts; for the electron, the charge sign.
pub proof fn lemma_counts_follow_formula(s: Species)
    ensures
        forall|i: int|
            0 <= i < spec_elements().len() ==> spec_count(s, #[trigger] spec_elements()[i])
                == formula_atoms(crate::species::spec_symbol(s), crate::species::spec_symbol(spec_elements()[i])[0]),
        spec_count(s, Species::E) == formula_electrons(crate::species::spec_symbol(s)),
{
    reveal_with_fuel(count_in, 4);
    reveal_with_fuel(formula_atoms, 4);
    assert forall|i: int|
        0 <= i < spec_elements().len() implies spec_count(s, #[trigger] spec_elements()[i])
        == formula_atoms(crate::species::spec_symbol(s), crate::species::spec_symbol(spec_elements()[i])[0]) by {
        let f = crate::species::spec_symbol(s);
        assert(f.len() <= 3);
        if f.len() >= 1 {
            assert(f.drop_first().len() == f.len() - 1);
        }
        if f.len() >= 2 {
            assert(f.drop_first().drop_first().len() == f.len() - 2);
            assert(f.drop_first()[0] == f[1]);
        }
        if f.len() >= 3 {
            assert(f.drop_first().drop_first()[0] == f[2]);
            assert(f.drop_first()[1] == f[2]);
            assert(f.drop_first().drop_first().drop_first().len() == 0);
        }
    }
}

/// Every species made only of elements the reactants bring (and of the
/// electron, when ions are allowed) is chosen, and, with a product list,
/// every such species on the list.
pub proof fn lemma_every_buildable_species_is_chosen(
    reactants: Seq<Species>,
    include_ions: bool,
    only: Option<Seq<Species>>,
    s: Species,
)
    requires
        forall|i: int|
            0 <= i < spec_constituents(s).len() ==> in_reactants(
                reactants,
                (#[trigger] spec_constituents(s)[i]).1,
            ) || (include_ions && spec_constituents(s)[i].1 == Species::E),
        only matches Some(list) ==> list.contains(s),
    ensures
        spec_candidates(reactants, include_ions, only).contains(s),
{
    crate::species::lemma_all_index();
    assert(spec_all()[spec_index(s)] == s);
    spec_all().lemma_filter_contains(candidate_pred(reactants, include_ions, only), spec_index(s));
}

} // verus!
