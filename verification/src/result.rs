//! The records that the device sends back.
pub mod dent;
pub mod device;
pub mod stat;
