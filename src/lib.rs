//! Composes a chain of table selects, joined pairwise by named keys, into
//! one nested SQL statement for a dialect that joins only two tables per
//! `FROM` clause.

pub mod compose;
pub mod counts;
pub mod laws;
pub mod model;
pub mod text;
