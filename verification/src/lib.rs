pub mod dfd_propellant;
pub mod equilibrium;
pub mod fusion_propellant;
pub mod identifier;
pub mod lexical;
pub mod numeral;
pub mod parsing;
pub mod products;
pub mod record_equilibrium;
pub mod species;
pub mod text;
