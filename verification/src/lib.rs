//! Kill statistics from comma-separated event logs.
//!
//! Each line of a log tells of one kill: the weapon, the killer, and where killer and victim
//! stood. The library turns lines into partial aggregates, merges those into one aggregate,
//! and ranks the weapons and the players with the most kills.
//!
//! - [`text`] splits a line into its fields and orders names.
//! - [`coordinate`] tells which fields are written as numbers.
//! - [`tally`], [`table`] and [`weapon_stats`] hold what is counted: statistics that merge
//!   by addition, kept by name in tables that depend on their entries alone.
//! - [`aggregate`] is the mergeable accumulator, with the laws of its merge.
//! - [`csvs_processor`] says what a line adds and aggregates all lines of all files.
//! - [`ranking`] and [`top_calculator`] pick the best entries and describe them.
//! - [`runner`] does a whole run on a pool of threads; [`parallel`] holds the calls that
//!   spread work over that pool.
//! - [`argument_parser`] and [`writer`] hold where input and output are.
//!
//! Distances are whole numbers of millionths of a map unit, and shares and mean distances
//! whole numbers of hundredths, so that sums are exact and do not depend on the order in
//! which they are taken.

pub mod aggregate;
pub mod argument_parser;
pub mod coordinate;
pub mod csvs_processor;
pub mod parallel;
pub mod ranking;
pub mod runner;
pub mod table;
pub mod tally;
pub mod text;
pub mod top_calculator;
pub mod weapon_stats;
pub mod writer;
