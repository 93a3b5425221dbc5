//! The RHYM format.
//!
//! RHYM stores map data in the QEM format, with required parameters and
//! with object data that is not Rhythia's stripped. Its files end in `.rhym`
//! and their signature block reads `RHYM` in place of `IQEM`.
pub mod serde;
