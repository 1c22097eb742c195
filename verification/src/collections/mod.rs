//! Sets and maps keyed by addresses, as vectors without repeated keys.
pub mod address_map;
pub mod address_set;
pub mod keyed;

pub use address_map::AddressMap;
pub use address_set::AddressSet;
