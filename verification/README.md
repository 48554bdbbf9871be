# thermo_species

Species tables and `thermo.inp` record reading for a rocket-engine
thermochemistry toolkit, written in Verus.

- `src/` is the verified library:
  - `species`: the gas-phase species, elements and ions of the equilibrium
    solver, their symbols, constituents and charge, and reading a symbol back.
  - `dfd_propellant`, `fusion_propellant`: the propellant species tables of
    the two engine models.
  - `equilibrium`: choosing the possible products and the element pool of an
    equilibrium problem over the species table, and its stoichiometric matrix.
  - `record_equilibrium`: the same over `thermo.inp` species records, with
    gas products first and condensed ones after them.
  - `lexical`: the lexicographic order the element pool is sorted by.
  - `parsing`: reading the fixed-column species records of NASA's
    `thermo.inp` (metadata line, temperature intervals, coefficient rows),
    columns counted in bytes.
  - `products`: reading every product record of a `thermo.inp` file, and
    finding a record by its species name.
  - `identifier`: turning a NASA species name into an identifier.
  - `numeral`, `text`: exact number reading (finite decimals, infinities
    and NaN) and integer reading, and trimming.
- `app/` holds the floating-point side that Verus does not model: `f64`
  views of the records, NASA polynomial evaluation, nozzle, dissociation and
  trajectory formulas, and two pieces of the equilibrium Newton iteration:
  the Gaussian elimination and the step damping (the iteration itself is not
  there).
- `tests/` exercises the library.
