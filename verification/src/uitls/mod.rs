//! The multi-valued map used for message headers.
pub mod multi_map;
