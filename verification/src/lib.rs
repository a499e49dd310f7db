//! A verified spaced-repetition engine for learning single characters.
//!
//! The crate holds the scheduling algorithm, the two in-memory stores it
//! works on (literals and review states), the coordinator that keeps the two
//! stores in step, and the queries that pick what to present next.
pub mod browser;
pub mod cli;
pub mod japanese;
pub mod sm2;
pub mod utils;
pub mod storage;
