//! Spatial addressing and streaming for a chunk-based tiled world.
//!
//! The crate maps discrete tile/voxel identifiers to the chunks that
//! contain them, enumerates chunk neighborhoods and rings, and drives a
//! load/unload lifecycle for chunks near moving observer sites.  Two
//! coordinate families are supported: an axis-aligned cubic grid and a
//! hexagonal cube-coordinate grid.
//!
//! All geometry here is integer arithmetic.  Continuous world positions
//! are taken as integer space coordinates (world units scaled and
//! truncated by the host), so every conversion, table construction and
//! lifecycle decision is verified.

pub mod hex;
pub mod hex_layout;
pub mod square;
pub mod streaming;
pub mod tracker;
