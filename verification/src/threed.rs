//! Decoded models made ready for a renderer.
pub mod resources;
