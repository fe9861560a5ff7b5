//! What programs call at run time, on plain values.

pub mod bytes;
pub mod collections;
pub mod files;
pub mod http;
pub mod math;
pub mod memory;
pub mod process;
pub mod registry;
pub mod strings;
