use vstd::prelude::*;

verus! {

/// The gas-phase species, elements and ions that the equilibrium solver
/// knows about. Elements double as the building blocks of every species
/// (see `constituents`); `E` is the electron pseudo-element.
#[derive(Clone, Copy, PartialEq, Eq, Hash, Debug, Structural)]
pub enum Species {
    H,
    H2,
    C,
    O,
    CO,
    N2,
    N,
    H2O,
    OH,
    CO2,
    O2,
    CH4,
    NH3,
    E,
    HPlus,
    CPlus,
    OPlus,
    NPlus,
    OHNeg,
}

/// The chemical symbol of a species, as a sequence of characters.
pub open spec fn spec_symbol(s: Species) -> Seq<char> {
    match s {
        Species::H => seq!['H'],
        Species::H2 => seq!['H', '2'],
        Species::C => seq!['C'],
        Species::O => seq!['O'],
        Species::CO => seq!['C', 'O'],
        Species::N2 => seq!['N', '2'],
        Species::N => seq!['N'],
        Species::H2O => seq!['H', '2', 'O'],
        Species::OH => seq!['O', 'H'],
        Species::CO2 => seq!['C', 'O', '2'],
        Species::O2 => seq!['O', '2'],
        Species::CH4 => seq!['C', 'H', '4'],
        Species::NH3 => seq!['N', 'H', '3'],
        Species::E => seq!['e', '-'],
        Species::HPlus => seq!['H', '+'],
        Species::CPlus => seq!['C', '+'],
        Species::OPlus => seq!['O', '+'],
        Species::NPlus => seq!['N', '+'],
        Species::OHNeg => seq!['O', 'H', '-'],
    }
}

/// Every species, in declaration order.
pub open spec fn spec_all() -> Seq<Species> {
    seq![Species::H, Species::H2, Species::C, Species::O, Species::CO, Species::N2, Species::N, Species::H2O, Species::OH, Species::CO2, Species::O2, Species::CH4, Species::NH3, Species::E, Species::HPlus, Species::CPlus, Species::OPlus, Species::NPlus, Species::OHNeg]
}

/// The position of a species in declaration order.
pub open spec fn spec_index(s: Species) -> int {
    match s {
        Species::H => 0,
        Species::H2 => 1,
        Species::C => 2,
        Species::O => 3,
        Species::CO => 4,
        Species::N2 => 5,
        Species::N => 6,
        Species::H2O => 7,
        Species::OH => 8,
        Species::CO2 => 9,
        Species::O2 => 10,
        Species::CH4 => 11,
        Species::NH3 => 12,
        Species::E => 13,
        Species::HPlus => 14,
        Species::CPlus => 15,
        Species::OPlus => 16,
        Species::NPlus => 17,
        Species::OHNeg => 18,
    }
}

/// Whether a species carries a charge (electrons count as charged).
pub open spec fn spec_is_charged(s: Species) -> bool {
    matches!(
        s,
        Species::E | Species::HPlus | Species::CPlus | Species::OPlus | Species::NPlus
            | Species::OHNeg
    )
}

/// The elements a species is made of, with how many atoms of each: a
/// negative count of `E` for a positive ion (electrons removed), a positive
/// one for a negative ion.
pub open spec fn spec_constituents(s: Species) -> Seq<(i32, Species)> {
    match s {
        Species::H => seq![(1i32, Species::H)],
        Species::H2 => seq![(2i32, Species::H)],
        Species::C => seq![(1i32, Species::C)],
        Species::O => seq![(1i32, Species::O)],
        Species::O2 => seq![(2i32, Species::O)],
        Species::CO => seq![(1i32, Species::C), (1i32, Species::O)],
        Species::CO2 => seq![(1i32, Species::C), (2i32, Species::O)],
        Species::N2 => seq![(2i32, Species::N)],
        Species::N => seq![(1i32, Species::N)],
        Species::H2O => seq![(2i32, Species::H), (1i32, Species::O)],
        Species::OH => seq![(1i32, Species::O), (1i32, Species::H)],
        Species::CH4 => seq![(1i32, Species::C), (4i32, Species::H)],
        Species::NH3 => seq![(1i32, Species::N), (3i32, Species::H)],
        Species::E => seq![(1i32, Species::E)],
        Species::HPlus => seq![(1i32, Species::H), (-1i32, Species::E)],
        Species::CPlus => seq![(1i32, Species::C), (-1i32, Species::E)],
        Species::OPlus => seq![(1i32, Species::O), (-1i32, Species::E)],
        Species::NPlus => seq![(1i32, Species::N), (-1i32, Species::E)],
        Species::OHNeg => seq![(1i32, Species::O), (1i32, Species::H), (1i32, Species::E)],
    }
}

/// Each species sits at its own index in `spec_all`.
pub proof fn lemma_all_index()
    ensures
        spec_all().len() == 19,
        forall|i: int| 0 <= i < 19 ==> spec_index(#[trigger] spec_all()[i]) == i,
        forall|s: Species| 0 <= #[trigger] spec_index(s) < 19 && spec_all()[spec_index(s)] == s,
{
    assert forall|s: Species| 0 <= #[trigger] spec_index(s) < 19 && spec_all()[spec_index(s)] == s by {
        match s {
            Species::H => assert(spec_all()[0] == Species::H),
            Species::H2 => assert(spec_all()[1] == Species::H2),
            Species::C => assert(spec_all()[2] == Species::C),
            Species::O => assert(spec_all()[3] == Species::O),
            Species::CO => assert(spec_all()[4] == Species::CO),
            Species::N2 => assert(spec_all()[5] == Species::N2),
            Species::N => assert(spec_all()[6] == Species::N),
            Species::H2O => assert(spec_all()[7] == Species::H2O),
            Species::OH => assert(spec_all()[8] == Species::OH),
            Species::CO2 => assert(spec_all()[9] == Species::CO2),
            Species::O2 => assert(spec_all()[10] == Species::O2),
            Species::CH4 => assert(spec_all()[11] == Species::CH4),
            Species::NH3 => assert(spec_all()[12] == Species::NH3),
            Species::E => assert(spec_all()[13] == Species::E),
            Species::HPlus => assert(spec_all()[14] == Species::HPlus),
            Species::CPlus => assert(spec_all()[15] == Species::CPlus),
            Species::OPlus => assert(spec_all()[16] == Species::OPlus),
            Species::NPlus => assert(spec_all()[17] == Species::NPlus),
            Species::OHNeg => assert(spec_all()[18] == Species::OHNeg),
        }
    }
}

/// `all` lists every species, each exactly once.
pub proof fn lemma_all_lists_each_species_once()
    ensures
        forall|s: Species| #[trigger] spec_all().contains(s),
        spec_all().no_duplicates(),
{
    lemma_all_index();
    assert forall|s: Species| #[trigger] spec_all().contains(s) by {
        assert(spec_all()[spec_index(s)] == s);
    }
    assert forall|i: int, j: int|
        0 <= i < spec_all().len() && 0 <= j < spec_all().len() && i != j implies spec_all()[i]
        != spec_all()[j] by {
        assert(spec_index(spec_all()[i]) == i);
        assert(spec_index(spec_all()[j]) == j);
    }
}

/// Reads a symbol back: the inverse of `spec_symbol`.
pub open spec fn spec_species_of_symbol(t: Seq<char>) -> Option<Species> {
    if t.len() == 1 && t[0] == 'H' {
        Some(Species::H)
    } else if t.len() == 2 && t[0] == 'H' && t[1] == '2' {
        Some(Species::H2)
    } else if t.len() == 1 && t[0] == 'C' {
        Some(Species::C)
    } else if t.len() == 1 && t[0] == 'O' {
        Some(Species::O)
    } else if t.len() == 2 && t[0] == 'C' && t[1] == 'O' {
        Some(Species::CO)
    } else if t.len() == 2 && t[0] == 'N' && t[1] == '2' {
        Some(Species::N2)
    } else if t.len() == 1 && t[0] == 'N' {
        Some(Species::N)
    } else if t.len() == 3 && t[0] == 'H' && t[1] == '2' && t[2] == 'O' {
        Some(Species::H2O)
    } else if t.len() == 2 && t[0] == 'O' && t[1] == 'H' {
        Some(Species::OH)
    } else if t.len() == 3 && t[0] == 'C' && t[1] == 'O' && t[2] == '2' {
        Some(Species::CO2)
    } else if t.len() == 2 && t[0] == 'O' && t[1] == '2' {
        Some(Species::O2)
    } else if t.len() == 3 && t[0] == 'C' && t[1] == 'H' && t[2] == '4' {
        Some(Species::CH4)
    } else if t.len() == 3 && t[0] == 'N' && t[1] == 'H' && t[2] == '3' {
        Some(Species::NH3)
    } else if t.len() == 2 && t[0] == 'e' && t[1] == '-' {
        Some(Species::E)
    } else if t.len() == 2 && t[0] == 'H' && t[1] == '+' {
        Some(Species::HPlus)
    } else if t.len() == 2 && t[0] == 'C' && t[1] == '+' {
        Some(Species::CPlus)
    } else if t.len() == 2 && t[0] == 'O' && t[1] == '+' {
        Some(Species::OPlus)
    } else if t.len() == 2 && t[0] == 'N' && t[1] == '+' {
        Some(Species::NPlus)
    } else if t.len() == 3 && t[0] == 'O' && t[1] == 'H' && t[2] == '-' {
        Some(Species::OHNeg)
    } else {
        None
    }
}

/// Reading a symbol back gives the species it came from.
pub proof fn lemma_symbol_round_trip(s: Species)
    ensures
        spec_species_of_symbol(spec_symbol(s)) == Some(s),
{
}

/// Two species never share a symbol.
pub proof fn lemma_symbol_injective(a: Species, b: Species)
    requires
        spec_symbol(a) == spec_symbol(b),
    ensures
        a == b,
{
    lemma_symbol_round_trip(a);
    lemma_symbol_round_trip(b);
}

/// A symbol is read back only into the species that has it.
pub proof fn lemma_species_of_symbol_sound(t: Seq<char>)
    ensures
        spec_species_of_symbol(t) matches Some(s) ==> spec_symbol(s) == t,
{
    if let Some(s) = spec_species_of_symbol(t) {
        assert(spec_symbol(s) =~= t);
    }
}

/// A species is charged exactly when electrons are among its constituents,
/// with a nonzero count.
pub proof fn lemma_charged_iff_electron_constituent(s: Species)
    ensures
        spec_is_charged(s) <==> exists|i: int|
            0 <= i < spec_constituents(s).len() && (#[trigger] spec_constituents(s)[i]).1
                == Species::E && spec_constituents(s)[i].0 != 0,
{
    let c = spec_constituents(s);
    if spec_is_charged(s) {
        assert(c[c.len() - 1].1 == Species::E);
    } else {
        assert forall|i: int| 0 <= i < c.len() implies (#[trigger] c[i]).1 != Species::E by {}
    }
}

impl Species {
    /// Every species, in declaration order.
    pub fn all() -> (r: Vec<Self>)
        ensures
            r@ == spec_all(),
    {
        vec![Species::H, Species::H2, Species::C, Species::O, Species::CO, Species::N2, Species::N, Species::H2O, Species::OH, Species::CO2, Species::O2, Species::CH4, Species::NH3, Species::E, Species::HPlus, Species::CPlus, Species::OPlus, Species::NPlus, Species::OHNeg]
    }

    /// Whether the species is an ion or the electron.
    pub fn is_charged(&self) -> (r: bool)
        ensures
            r == spec_is_charged(*self),
    {
        matches!(
            self,
            Species::E | Species::HPlus | Species::CPlus | Species::OPlus | Species::NPlus
                | Species::OHNeg
        )
    }

    /// The elements the species is made of, with atom counts (see
    /// `spec_constituents`), e.g. `H2O` is two `H` and one `O`.
    pub fn constituents(&self) -> (r: Vec<(i32, Species)>)
        ensures
            r@ == spec_constituents(*self),
    {
        match self {
            Species::H => vec![(1, Species::H)],
            Species::H2 => vec![(2, Species::H)],
            Species::C => vec![(1, Species::C)],
            Species::O => vec![(1, Species::O)],
            Species::O2 => vec![(2, Species::O)],
            Species::CO => vec![(1, Species::C), (1, Species::O)],
            Species::CO2 => vec![(1, Species::C), (2, Species::O)],
            Species::N2 => vec![(2, Species::N)],
            Species::N => vec![(1, Species::N)],
            Species::H2O => vec![(2, Species::H), (1, Species::O)],
            Species::OH => vec![(1, Species::O), (1, Species::H)],
            Species::CH4 => vec![(1, Species::C), (4, Species::H)],
            Species::NH3 => vec![(1, Species::N), (3, Species::H)],
            Species::E => vec![(1, Species::E)],
            Species::HPlus => vec![(1, Species::H), (-1, Species::E)],
            Species::CPlus => vec![(1, Species::C), (-1, Species::E)],
            Species::OPlus => vec![(1, Species::O), (-1, Species::E)],
            Species::NPlus => vec![(1, Species::N), (-1, Species::E)],
            Species::OHNeg => vec![(1, Species::O), (1, Species::H), (1, Species::E)],
        }
    }

    /// The species whose symbol is `symbol`, if any.
    pub fn from_symbol(symbol: &str) -> (r: Option<Species>)
        ensures
            r == spec_species_of_symbol(symbol@),
    {
        let all = Species::all();
        let wanted = String::from_str(symbol);
        let mut i: usize = 0;
        while i < all.len()
            invariant
                all@ == spec_all(),
                wanted@ == symbol@,
                i <= all@.len(),
                forall|j: int| 0 <= j < i ==> spec_symbol(#[trigger] all@[j]) != symbol@,
            decreases all@.len() - i,
        {
            if all[i].symbol() == wanted {
                proof {
                    lemma_symbol_round_trip(all@[i as int]);
                }
                return Some(all[i]);
            }
            i = i + 1;
        }
        proof {
            lemma_all_index();
            assert forall|s: Species| spec_symbol(s) != symbol@ by {
                assert(all@[spec_index(s)] == s);
            }
            lemma_species_of_symbol_sound(symbol@);
        }
        None
    }
}

/// A species name that no species has.
#[derive(Debug, PartialEq, Eq)]
pub struct ParseSpeciesError;

impl std::str::FromStr for Species {
    type Err = ParseSpeciesError;

    /// The species whose symbol is `s`; `ParseSpeciesError` when no
    /// species has that symbol.
    fn from_str(s: &str) -> (r: Result<Species, ParseSpeciesError>)
        ensures
            match spec_species_of_symbol(s@) {
                Some(species) => r == Ok::<Species, ParseSpeciesError>(species),
                None => r == Err::<Species, ParseSpeciesError>(ParseSpeciesError),
            },
    {
        match Species::from_symbol(s) {
            Some(species) => Ok(species),
            None => Err(ParseSpeciesError),
        }
    }
}

impl Species {
    /// The species' chemical symbol, e.g. `"H2O"`, `"e-"`, `"OH-"`.
    pub fn symbol(&self) -> (r: String)
        ensures
            r@ == spec_symbol(*self),
    {
        match self {
            Species::H => {
                proof { reveal_strlit("H"); }
                String::from_str("H")
            },
            Species::H2 => {
                proof { reveal_strlit("H2"); }
                String::from_str("H2")
            },
            Species::C => {
                proof { reveal_strlit("C"); }
                String::from_str("C")
            },
            Species::O => {
                proof { reveal_strlit("O"); }
                String::from_str("O")
            },
            Species::CO => {
                proof { reveal_strlit("CO"); }
                String::from_str("CO")
            },
            Species::N2 => {
                proof { reveal_strlit("N2"); }
                String::from_str("N2")
            },
            Species::N => {
                proof { reveal_strlit("N"); }
                String::from_str("N")
            },
            Species::H2O => {
                proof { reveal_strlit("H2O"); }
                String::from_str("H2O")
            },
            Species::OH => {
                proof { reveal_strlit("OH"); }
                String::from_str("OH")
            },
            Species::CO2 => {
                proof { reveal_strlit("CO2"); }
                String::from_str("CO2")
            },
            Species::O2 => {
                proof { reveal_strlit("O2"); }
                String::from_str("O2")
            },
            Species::CH4 => {
                proof { reveal_strlit("CH4"); }
                String::from_str("CH4")
            },
            Species::NH3 => {
                proof { reveal_strlit("NH3"); }
                String::from_str("NH3")
            },
            Species::E => {
                proof { reveal_strlit("e-"); }
                String::from_str("e-")
            },
            Species::HPlus => {
                proof { reveal_strlit("H+"); }
                String::from_str("H+")
            },
            Species::CPlus => {
                proof { reveal_strlit("C+"); }
                String::from_str("C+")
            },
            Species::OPlus => {
                proof { reveal_strlit("O+"); }
                String::from_str("O+")
            },
            Species::NPlus => {
                proof { reveal_strlit("N+"); }
                String::from_str("N+")
            },
            Species::OHNeg => {
                proof { reveal_strlit("OH-"); }
                String::from_str("OH-")
            },
        }
    }
}

} // verus!
