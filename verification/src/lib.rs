//! The common gate of a circuit library: one polynomial identity, the rows
//! that are assigned under it, and the algorithms that are built from such
//! rows.

pub mod assign;
pub mod bits;
pub mod config;
pub mod decompose;
pub mod expression;
pub mod field;
pub mod gate;
pub mod host;
pub mod region;
pub mod select;
pub mod sum;
pub mod wiring;
