//! What holds of every run, proved of the plan.

pub mod errors;
pub mod names;
pub mod order;
pub mod protocol;
pub mod rest;
pub mod runs;
