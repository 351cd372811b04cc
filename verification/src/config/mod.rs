//! The configuration: its data model, and the rules for finding, checking and
//! merging configuration files.

pub mod discovery;
pub mod loader;
pub mod model;
