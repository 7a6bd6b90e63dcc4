//! Configuration model for a portfolio-rebalancer launcher.
//!
//! The library validates user-entered allocation percentages, derives the
//! cash allocation, serializes the configuration to its JSON file format,
//! parses that format back, and models the lifecycle of the supervised
//! backend process.  All numeric fields are fixed-point decimals carried as
//! integer billionths, so every computation here is exact.

pub mod config;
pub mod editor;
pub mod json;
pub mod num;
pub mod store;
pub mod supervisor;
pub mod text;
