//! Scheduling core of a multiplexed HTTP load generator.
//!
//! Each worker submits a batch of requests, then repeatedly advances the
//! transport engine, drains completion events and routes each one to the
//! token table, until the engine reports that nothing is outstanding.
pub mod config;
pub mod engine;
pub mod outcome;
pub mod table;
pub mod scheduler;
pub mod report;
