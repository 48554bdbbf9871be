use vstd::prelude::*;

verus! {

/// The species of the direct-fusion-drive propellant: hydrogen and carbon
/// monoxide and what they dissociate into.
#[derive(Structural, PartialEq, Eq)]
pub enum Species {
    H,
    H2,
    C,
    O,
    CO,
}

/// The chemical symbol of a species.
pub open spec fn spec_symbol(s: Species) -> Seq<char> {
    match s {
        Species::H => seq!['H'],
        Species::H2 => seq!['H', '2'],
        Species::C => seq!['C'],
        Species::O => seq!['O'],
        Species::CO => seq!['C', 'O'],
    }
}

impl Species {
    /// The species' chemical symbol, e.g. `"CO"`.
    pub fn symbol(&self) -> (r: String)
        ensures
            r@ == spec_symbol(*self),
    {
        match self {
            Species::H => {
                proof { reveal_strlit("H"); }
                String::from_str("H")
            },
            Species::H2 => {
                proof { reveal_strlit("H2"); }
                String::from_str("H2")
            },
            Species::C => {
                proof { reveal_strlit("C"); }
                String::from_str("C")
            },
            Species::O => {
                proof { reveal_strlit("O"); }
                String::from_str("O")
            },
            Species::CO => {
                proof { reveal_strlit("CO"); }
                String::from_str("CO")
            },
        }
    }
}

} // verus!
