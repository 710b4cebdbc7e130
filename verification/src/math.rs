//! Matrices given as vectors of rows.

pub mod matrix;
