//! Collatz (Syracuse) trajectories on arbitrary-precision naturals.
//!
//! The library carries a big unsigned integer along the orbit of the map that
//! halves even numbers and sends an odd `n` to `3n + 1`, by one of five
//! interchangeable strategies, counts the steps, and renders numbers and
//! results as text.

pub mod algorithm;
pub mod clock;
pub mod engine;
pub mod natural;
pub mod orbit;
pub mod report;
pub mod runner;
pub mod text;

pub use crate::algorithm::{Advance, Algorithm, EngineError};
pub use crate::engine::{first_revisit, trajectory, MinimumTracker, Run};
pub use crate::report::{
    compose_summary, csv_line, describe_results, format_results, TrajectoryResult,
};
pub use crate::runner::{compute, incremental, optimum_syracuse, run, Descent, Progress};
pub use crate::text::{crop_biguint, decimal_string};
