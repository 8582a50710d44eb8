//! Sequences: reviewed multi-step AT workflows, their definitions, the
//! built-in ones and the engine that runs them.
pub mod analysis;
pub mod bindings;
pub mod builtin;
pub mod candidates;
pub mod csv;
pub mod params;
pub mod sms;
pub mod steps;
pub mod transcript;
pub mod definition;
pub mod display;
pub mod engine;
pub mod loader;
pub mod model;
