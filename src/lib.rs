//! A harness for comparing regular-expression engines: a small configuration
//! language for functionality cases and performance scenarios, deterministic
//! corpus generation, and the runners that time, check and tabulate each case.

pub mod text;
pub mod config;
pub mod corpus;
pub mod engine;
pub mod functional;
pub mod performance;
pub mod report;
