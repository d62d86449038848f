//! A rule-based tile selector: given the terrain of a grid cell and the
//! terrains around it, pick which tile should represent that cell.
//!
//! Directions are bits of a mask ([`direction`]); a [`Requirement`] asks for
//! some directions to be occupied by given terrains and others not; a
//! [`TileDefinition`] joins requirements into an OR of ANDs; an
//! [`AutoTiler`] keeps definitions sorted by priority and answers, for a cell
//! of a board, with the tile of the first one that matches.

pub mod auto_tiler;
pub mod board;
pub mod direction;
pub mod layer;
pub mod matrix;
pub mod rules;
pub mod terrain;

pub use crate::auto_tiler::{AutoTiler, TileDefinition};
pub use crate::board::{BoardTrait, Neighbor};
pub use crate::direction::{combine, combine_spec, AdjacentDirection, AsMask, Direction};
pub use crate::layer::BoardLayer;
pub use crate::matrix::Matrix;
pub use crate::rules::Requirement;
pub use crate::terrain::{build_auto_tiler, TileTerrain};
