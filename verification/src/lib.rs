//! A printing-style color-separation engine.
//!
//! Given a set of primary ink colors and a bidirectional color-space
//! transform, the engine enumerates the achievable mixtures of the primaries
//! under an ink limit ("candidates"), indexes them for nearest-neighbor
//! lookup in the comparison color space, and maps every cell of a uniform
//! RGB grid to its nearest achievable mixture, producing one secondary-color
//! lookup table plus a blend-color and a mask table per primary.
//!
//! Colors are carried as fixed-point values (see [`vector`]); the surrounding
//! application converts between device floating-point colors and this
//! representation at the boundary.

pub mod candidates;
pub mod config;
pub mod engine;
pub mod grid;
pub mod mapper;
pub mod spatial;
pub mod vector;
