//! A swarm of exploring agents on a grid world: the cell model, the world
//! grid, each agent's private view, and the reconciliation of views at the base.

pub mod base;
pub mod cell;
pub mod grid;
pub mod map;
mod random;
pub mod renderer;
pub mod robot;
pub mod text;

pub use base::Base;
pub use cell::Cell;
pub use grid::{MAP_HEIGHT, MAP_WIDTH};
pub use map::WorldMap;
pub use renderer::{Renderer, TerminalRenderer};
pub use robot::{Direction, Robot};
