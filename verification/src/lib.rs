//! Monotone dataflow analysis for labelled While programs: the syntactic
//! functions on programs, four classical analyses and a worklist solver that
//! computes their least fixpoints.

pub mod abstract_syntax;
pub mod ae;
pub mod fact_set;
pub mod framework;
pub mod lattice;
pub mod lv;
pub mod model;
pub mod rd;
pub mod utils;
pub mod vb;
