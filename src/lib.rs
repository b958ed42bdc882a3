//! A Monte Carlo simulation of a sales force: the layout of each trial's
//! event table, the union of the trials, and the grouping of the union into
//! one row per distributor and month, with each distributor's conversions.

pub mod distributions;
pub mod drivers;
pub mod errors;
pub mod trial;
pub mod table;
pub mod aggregate;
pub mod run;
