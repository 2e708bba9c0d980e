//! Core of a batch autograder: runs a shared suite of black-box test cases
//! against many student submissions, under wall-clock and output limits, and
//! reports results deterministically in submission order.
//!
//! This crate holds the verified logic: text normalization and comparison,
//! placeholder interpolation, per-case and per-submission result assembly,
//! the supervision decisions of the bounded process executor, and the
//! reorder buffer that turns out-of-order job completion into in-order
//! emission.  Process spawning, file, terminal and network I/O live outside
//! the library, in the thin binary around it.

pub mod canvas;
pub mod cli;
pub mod cmd;
pub mod config;
pub mod dates;
pub mod git;
pub mod schedule;
pub mod testcases;
pub mod text;
pub mod util;
