//! Registration and triggering front end of a harness that tests command-line
//! programs against snapshots of their output.
//!
//! A [`TestCases`] registry gathers glob patterns with the outcome expected
//! of the cases they match, and defaults for the executable, the timeout and
//! the environment. It decides when the runner is started on what was
//! gathered: on request or at the end of its scope, and never twice. The
//! mode of a run comes from one environment value ([`parse_mode`]), the
//! inclusion filter from the process arguments ([`parse_include`]).
//!
//! Matching patterns against the file system, executing the cases and
//! comparing their output is the runner's work and no part of this crate.

pub mod cases;
pub mod filter;
pub mod keyed;
pub mod mode;
pub mod runner;
pub mod schema;
pub mod text;

pub use cases::TestCases;
pub use filter::parse_include;
pub use mode::{parse_mode, Mode};
pub use runner::RunnerSpec;
pub use schema::{Bin, CommandStatus};
