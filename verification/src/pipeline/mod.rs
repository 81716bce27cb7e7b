//! The voice pipeline's decisions, stage by stage. Every stage is a state
//! machine: the task around it waits for an event, hands it over, and does
//! what comes back.
//!
//! An instant is a number of nanoseconds since a common origin. A cancellation
//! token is known by the turn it belongs to.

pub mod orchestrator;
pub mod selftest;
pub mod stages;
pub mod startup;
pub mod wake;

pub use orchestrator::Orchestrator;
pub use selftest::SelftestReport;
