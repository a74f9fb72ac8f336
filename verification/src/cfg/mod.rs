//! Configuration: aliases, the configuration document and its validation.
pub mod alias;
pub mod loader;
pub mod spec;
