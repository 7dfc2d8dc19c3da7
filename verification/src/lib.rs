//! Decoders for two flash artifacts of ESP32 firmware images: the partition
//! table and the NVS (non-volatile storage) partition.
//!
//! Both decoders work on a byte buffer that the caller has already read, and
//! both state in their contracts exactly which value they return for which
//! bytes.

use vstd::prelude::*;

pub mod error;
pub mod nvs;
pub mod partition_table;
pub mod primitives;
pub mod text;

verus! {

/// The version of this library.
pub const VERSION: &'static str = "0.1.0";

} // verus!
