//! The resource decoders, one module for each format, over a shared cursor,
//! run-length codec and error type.
pub mod bytes;
pub mod cursor;
pub mod decode;
pub mod error;
pub mod ieee;
pub mod parse;
pub mod qfg5anm;
pub mod qfg5gra;
pub mod qfg5img;
pub mod qfg5mdl;
pub mod qfg5nod;
pub mod qfg5qgf;
pub mod qfg5qgm;
pub mod qfg5rgd;
pub mod qfg5spk;
pub mod qfg5zzz;
pub mod record;
pub mod text;
