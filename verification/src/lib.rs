//! A Fitch-style natural-deduction proof engine.
//!
//! A proof is an ordered, nested sequence of lines; each line is either an
//! assumption (opening a subproof) or a derived line justified by an
//! inference rule and a list of cited references.  Expressions are parsed
//! into a pool that interns them, so that structural equality of formulas
//! is equality of small integer handles.  Verification of a line resolves
//! its citations against the scope-visibility relation of the nested
//! structure and then checks the stored rule against the cited premises.

pub mod expr;
pub mod parse;
pub mod pool;
pub mod rules;
pub mod lined;
pub mod document;
pub mod laws;
