//! Core of a Conway's Game of Life simulation on a fixed-size grid.
//!
//! The crate provides the grid data model ([`resources::CellMap`],
//! [`resources::Board`]), the neighbor-counting and survival/birth rule
//! ([`event::evolve`]), the pointer-to-coordinate mapping used for
//! interactive toggling ([`resources::Board::mouse_position`]), and the
//! event-driven update protocol that decouples what changed from how it is
//! rendered ([`event`]). Rendering, windowing and input devices are left to
//! an external collaborator that consumes the `(Coordinate, CellState)`
//! change records each tick and supplies pointer positions as input.

pub mod components;
pub mod event;
pub mod resources;
pub mod state;
