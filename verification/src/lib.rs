//! Decoders for the binary resource formats of Quest for Glory 5: the SPK
//! archive, the IMG/ZZZ raster images, the NOD palette table, GRA sprite
//! atlases, QGF bitmap fonts, MDL meshes, ANM animations, QGM dialogue
//! tables and RGD navigation graphs.
//!
//! Every decoder is a total function from a byte buffer to a decoded value or
//! a [`qfg5resource::error::DecodeError`]; its contract equates the result
//! with a specification function over the bytes.
pub mod qfg5resource;
pub mod threed;
