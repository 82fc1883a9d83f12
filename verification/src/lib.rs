//! A bucket list whose items gain priority when touched and fade day by day.
//!
//! The list is an `IndexMap` from names to items, walked in the order in which
//! the names were added. Priorities are fixed-point numbers in millionths:
//! `record::UNIT` stands for 1.0. A touch adds one unit; each whole day since
//! the last touch multiplies the priority by 0.925, rounded down.
//!
//! - `record`: one item, its decay and its touch.
//! - `store`: what is taken on trust of `IndexMap`.
//! - `ranking`: the order of a listing.
//! - `ops`: the actions on the list.
//! - `clock`: the system clock in seconds.
//! - `paths`: where the data file lies.
//! - `laws`: what holds across the actions.

pub mod clock;
pub mod error;
pub mod laws;
pub mod ops;
pub mod paths;
pub mod ranking;
pub mod record;
pub mod store;
