//! The grid engine.
//!
//! * [`coords`] maps grid coordinates to positions in a row-major buffer and
//!   back, and counts the cells of a grid.
//! * [`neighborhood`] holds the rules that name the neighbors of a cell, among
//!   them the four-connected neighborhood.
//! * [`simulation`] holds the transition rules and the simulation that applies
//!   one to every cell of the grid, step by step.

pub mod coords;
pub mod neighborhood;
pub mod simulation;

pub use coords::{cell_count, coord_to_idx, idx_to_coord};
pub use neighborhood::{
    von_neuman, Neighborhood, NeighborhoodRule, VonNeuman, VON_NEUMAN_NEIGHBORHOOD,
};
pub use simulation::{ConfigError, Simulation, TransitionRule, Unchanged};
