use vstd::prelude::*;

verus! {

/// The species of the hybrid fusion engine's propellant feed: hydrogen,
/// carbon monoxide and nitrogen and what they dissociate into.
#[derive(Copy, Clone, PartialEq, Eq, Structural)]
pub enum Species {
    H,
    H2,
    C,
    O,
    CO,
    N2,
    N,
}

/// The chemical symbol of a species.
pub open spec fn spec_symbol(s: Species) -> Seq<char> {
    match s {
        Species::H => seq!['H'],
        Species::H2 => seq!['H', '2'],
        Species::C => seq!['C'],
        Species::O => seq!['O'],
        Species::CO => seq!['C', 'O'],
        Species::N2 => seq!['N', '2'],
        Species::N => seq!['N'],
    }
}

impl Species {
    /// The species' chemical symbol, e.g. `"CO"`.
    pub fn symbol(&self) -> (r: String)
        ensures
            r@ == spec_symbol(*self),
    {
        match self {
            Species::H => {
                proof { reveal_strlit("H"); }
                String::from_str("H")
            },
            Species::H2 => {
                proof { reveal_strlit("H2"); }
                String::from_str("H2")
            },
            Species::C => {
                proof { reveal_strlit("C"); }
                String::from_str("C")
            },
            Species::O => {
                proof { reveal_strlit("O"); }
                String::from_str("O")
            },
            Species::CO => {
                proof { reveal_strlit("CO"); }
                String::from_str("CO")
            },
            Species::N2 => {
                proof { reveal_strlit("N2"); }
                String::from_str("N2")
            },
            Species::N => {
                proof { reveal_strlit("N"); }
                String::from_str("N")
            },
        }
    }
}

} // verus!
