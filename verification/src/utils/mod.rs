//! Shared containers.
pub mod multi_values_map;
pub mod time;
pub mod auto_counter;
pub mod mimes;

pub use multi_values_map::MultiValuesMap;
