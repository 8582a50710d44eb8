//! Presets: named AT commands with a declared risk and an origin.
pub mod builtin;
pub mod definition;
pub mod loader;
pub mod model;
