//! Exact state-vector simulation of small quantum circuits.
//!
//! A circuit is a rectangular grid of gate tokens: rows are qubit lines
//! (at most six), columns are time steps.  The simulator validates the
//! grid, parses each column into gate placements, composes the placements
//! into one whole-system operator per step via the Kronecker product, and
//! applies the operators to the state vector, recording the state after
//! every step.
//!
//! Every gate in the catalog has its matrix entries in the ring of
//! integer combinations of powers of `w = e^(i*pi/4)`, divided by powers
//! of the square root of two.  Amplitudes therefore stay in that ring,
//! and the whole evolution is carried out exactly, on integers.

pub mod circuit_parser;
pub mod circuit_validator;
pub mod complex;
pub mod laws;
pub mod norm;
pub mod quantum_gate;
pub mod quantum_state;
pub mod simulator;
pub mod utils;
