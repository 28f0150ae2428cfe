//! Helpers shared by the message readers.
pub mod header;
