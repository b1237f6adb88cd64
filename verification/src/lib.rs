//! Decision core of a two-dimensional panel-method tool for NACA 4-digit
//! airfoil sections.
//!
//! Everything here works on exact values: integers, flags, and
//! single-precision numbers held as their IEEE 754 bit patterns, which are
//! only ever compared, never computed with. The numerical kernels that
//! produce those numbers live with the caller.

pub mod boundary_layer;
pub mod cache;
pub mod flow;
pub mod geometry;
pub mod kutta;
pub mod polar;
pub mod single;
pub mod solver;
pub mod state;
