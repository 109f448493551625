//! Flakiness report over the recorded results of example runs.
//!
//! Each run of the examples leaves a directory of artifacts: for each
//! platform the lists of the examples that passed, that failed and that ran
//! without a screenshot, and pointers to the comparisons of screenshots that
//! two providers hold. This library reads what such directories hold into
//! runs, and says over all runs which examples are flaky.
//!
//! It reads no file and asks no provider: its callers hand it names and texts,
//! and the providers' answers.
//!
//! - [`directory`]: which directories are read, and what their names say.
//! - [`parse`]: the grammar of result lines and of the names of artifacts.
//! - [`screenshot`]: what a provider reports of a screenshot, and for each
//!   provider how its answer is resolved into such reports.
//! - [`run`]: what an artifact adds to a run.
//! - [`scan`]: the runs one after another, and the registry of examples that
//!   they share.
//! - [`report`]: the examples in order, each with its verdict.
//! - [`table`], [`text`], [`model`]: what the others are built from.

pub mod directory;
pub mod model;
pub mod parse;
pub mod report;
pub mod run;
pub mod scan;
pub mod screenshot;
pub mod table;
pub mod text;
