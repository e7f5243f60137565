//! Propositional-logic formulas and their truth tables.
//!
//! Formulas are immutable trees built bottom-up through smart constructors;
//! a truth table owns an ordered list of atomic formulas and an ordered list
//! of compound formulas registered on top of them, enumerates every valuation
//! of the atoms, propagates truth values through the compound columns, and
//! renders the result as aligned text.

pub mod base_formula;
pub mod connective;
pub mod truth_table;
pub mod truth_value;
