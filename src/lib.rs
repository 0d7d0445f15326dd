//! Global command-line flags of a browser-automation tool: reading them into a
//! configuration value, and stripping them from the argument list.
pub mod flags;
pub mod laws;
pub mod text;
