//! Staggered URL launching: parse a human-written delay specification,
//! read a line-oriented list of URL entries, and drive a launch/sleep/join
//! schedule that starts one unit of work per entry and aggregates the
//! first failure.

pub mod args;
pub mod duration;
pub mod entries;
pub mod scheduler;
