//! Verified core of a small git pipeline helper.
//!
//! The library holds the logic of the tool: building the argument vectors for
//! the `git` subcommands, interpreting a finished subprocess (exit status and
//! captured streams) as a structured result, condensing commit and push output
//! into summaries, and translating error text into a fixed set of categories.
//! All process spawning, terminal styling and argument parsing live outside,
//! in the unverified shell around this crate.

pub mod args;
pub mod command;
pub mod commit_summary;
pub mod errors;
pub mod paths;
pub mod pipeline;
pub mod push_summary;
pub mod runner;
pub mod scan;
