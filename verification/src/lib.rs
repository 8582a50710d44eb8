//! AT command controller library for USB cellular modems: command
//! normalization and risk classification, response parsing, sensitive value
//! masking, preset and multi-step sequence definitions, and the sequence
//! engine that drives a modem transport.
pub mod at;
pub mod cli;
pub mod clock;
pub mod config;
pub mod error;
pub mod log;
pub mod paths;
pub mod presets;
pub mod sequences;
pub mod text;
pub mod transport;
