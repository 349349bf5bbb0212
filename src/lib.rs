//! Hierarchical self-test harness: a fixed tree of tests, a command grammar
//! that selects what to run, a recursive runner with aggregation, and the
//! data behind the text and JSON reports.
pub mod command;
pub mod driver;
pub mod harness;
pub mod node;
pub mod registry;
pub mod report;
pub mod runner;
