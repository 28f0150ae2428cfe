//! The services a listener can run.
pub mod forward;
pub mod fs;
pub mod helloworld;
pub mod upstream;
