//! AT command text: normalization, response parsing, risk classification
//! and masking of sensitive values.
pub mod command;
pub mod mask;
pub mod parser;
pub mod response;
pub mod risk;
