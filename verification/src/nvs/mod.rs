//! The NVS partition: pages, the records in them, and the store that indexes
//! the records by namespace.

pub mod event;
pub mod model;
pub mod nvs;
pub mod page;
pub mod parsers;

pub use self::nvs::Nvs;
