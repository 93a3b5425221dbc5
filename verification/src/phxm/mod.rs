//! The PHXM map format: a zip archive holding the map's metadata as JSON,
//! its media, and its objects in a little-endian binary file.
pub mod laws;
pub mod serde;

pub use serde::PHXMSerde;

use vstd::prelude::*;

verus! {

/// The first PHXM codec, kept under its first name.
pub struct PXHMSerde;

} // verus!
