//! Flattening of symbolic affine expressions over a scalar ring into an
//! optional constant and an ordered list of `(coefficient, variable)` terms.

pub mod cvar;
pub mod field;
pub mod flatten;
pub mod laws;
pub mod merge;

pub use cvar::{Cvar, Term, VarId};
pub use field::FieldElement;
