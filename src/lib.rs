//! A procedural fire effect: a grid of heat levels that a local, randomised
//! diffusion-with-decay rule advances one tick at a time, and a fixed colour
//! ramp that maps each heat level to a colour.

use vstd::prelude::*;

pub mod engine;
pub mod grid;
pub mod heat;
pub mod palette;
pub mod random;
pub mod state;

pub use engine::{decay_heat, spread_fire, tick_steady, tick_with_draws, wrap_column, CellDraw};
pub use grid::{ConfigError, HeatGrid};
pub use heat::{FirePixel, MAX_HEAT};
pub use palette::{color_for, Rgb};
pub use random::{draw_cells, tick};
pub use state::{State, COLS, HEIGHT, ROWS, SCALE, WIDTH};
