//! Colonies of genetically defined molds growing on a toroidal grid.
//!
//! Each organism carries a genome of growth instructions and one energy
//! counter shared by all of its cells. A tick ages every cell and settles the
//! energy economy, then lets tissue grow, starved cells die and ripe spores
//! germinate. Every function is verified against a mathematical model of the
//! simulation, `world::World`.

pub mod bordering;
pub mod cell;
pub mod chance;
pub mod genome;
pub mod laws;
pub mod scan;
pub mod simulation;
pub mod torus;
pub mod world;

pub use cell::Cell;
pub use genome::Genome;
pub use simulation::Simulation;
