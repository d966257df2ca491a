//! A D2Q9 lattice-Boltzmann wind tunnel: the lattice, the streaming of
//! distributions between cells, and the simulation grid with its inlet and outlet.

pub mod lattice;
pub mod streaming;
pub mod simulation;
