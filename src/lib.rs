//! Monte Carlo contests between non-transitive dice, with verified tallying,
//! scheduling, ranking and reporting.

pub mod config;
pub mod dice;
pub mod contest;
pub mod text;
pub mod schedule;
pub mod ranking;
