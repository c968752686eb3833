//! A bounded three-dimensional cellular automaton: a box of binary cells that
//! evolves generation by generation under a survival/birth rule over the 26
//! cells of each cell's Moore neighbourhood, stepped by a fixed-interval tick
//! scheduler and reseeded on demand.

pub mod grid;
pub mod lattice;
pub mod live_set;
pub mod probability;
pub mod rule;
pub mod simulation;
pub mod ticker;

pub use grid::Grid;
pub use lattice::{neighbor_count, Coord};
pub use live_set::LiveSet;
pub use probability::{Probability, RandomizeGridEvent};
pub use rule::{CellState, LifeError, Rule};
pub use simulation::Simulation;
pub use ticker::TickScheduler;
