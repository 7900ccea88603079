//! A lattice-Boltzmann flow solver on a periodic two-dimensional grid.
//!
//! The library holds the discrete-velocity algebra of the nine-velocity
//! lattice, the grid with its periodic neighbour addressing, the geometric
//! predicates that classify cells, the order-dependent composition of
//! boundary conditions and the three-phase time-stepping driver. The value
//! type of the distributions is a parameter: the arithmetic of a collision
//! operator and of a forced inflow is supplied by the caller.
pub mod lattice;
pub mod geometry;
pub mod grid;
pub mod boundary;
pub mod solver;

pub use lattice::D2Q9;

pub use solver::Solver;
