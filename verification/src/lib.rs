//! Readers and writers for rhythm-game map files.
//!
//! The library works on in-memory byte buffers: `io` holds a little-endian
//! binary reader and writer, `sspm` and `phxm` hold the codecs of the two map
//! formats, and `map` and `objects` hold the values they produce.
//! Floating-point values never appear here: every `f32`/`f64` of a format is
//! carried as its IEEE-754 bit pattern, exactly as it is stored.

pub mod codec;
pub mod error;
pub mod io;
pub mod types;
pub mod map;
pub mod objects;
pub mod text;
pub mod sspm;
pub mod nyam;
pub mod rhym;
pub mod phxm;
pub mod laws;
