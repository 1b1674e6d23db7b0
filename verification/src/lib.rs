//! Capability-policy core for sandboxed command execution.
//!
//! The crate decides, for each shell command an autonomous agent wants to
//! run, which filesystem and network capabilities it may use, whether a
//! human must approve it first, and how a fault in the worker protocol is
//! contained.  It also carries the small journaling store that the
//! command-line front end exposes.

pub mod cli;
pub mod compiler;
pub mod exec;
pub mod matcher;
pub mod notes;
pub mod ops;
pub mod paths;
pub mod platform;
pub mod policy;
pub mod render;
pub mod resolver;
pub mod shell;
pub mod strings;
pub mod turn;
pub mod worker;

pub use policy::ApprovalPolicy;
