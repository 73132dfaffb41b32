//! A harness that registers compatibility checks, runs them and reports on
//! them, with baselines and a sweep of the Sway specification.

pub mod suite;
pub mod baseline;
pub mod report;
pub mod sweep;
pub mod checks;
