//! The SSPM map format, versions 1 and 2.
pub mod laws;
pub mod serde;

pub use serde::SSPMSerde;
