//! Map decoding and grid simulation for a tile-based strategy game.
//!
//! The world is a square of 1024 by 1024 cells. [`stored_map`] and [`map`]
//! decode its terrain from the compressed stream in which it is stored;
//! [`terrain`] says which kind of ground a cell shows and whether units can
//! stand on it; [`over_map`] records which unit or building stands on each
//! cell. [`unit`] moves the units tick by tick, [`building`] places buildings,
//! and [`pheromone`] lets the trails that units follow fade and spread.
//! [`grid`] holds what these share: coordinates, rectangles, and surfaces of
//! cells with their batch operations. [`sprites`] and [`palette`] decode the
//! image files.
//!
//! Every function states in its contract what it returns and changes, and the
//! contracts are proved. The proofs rest on three declarations about the
//! random number generator, which are gathered in [`random`].

pub mod building;
pub mod direction;
pub mod grid;
pub mod map;
pub mod over_map;
pub mod palette;
pub mod pheromone;
pub mod random;
pub mod sprites;
pub mod stored_map;
pub mod terrain;
pub mod unit;
