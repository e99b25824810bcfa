//! Core logic of a desktop launcher for a bundled command-line harness:
//! Windows command-line quoting, environment blocks, runtime version checks
//! and the decisions behind the launcher's settings and status reports.

pub mod text;
pub mod version;
pub mod utf16;
pub mod cmdline;
pub mod env_block;
pub mod runtime;
pub mod cli;
pub mod cores;
pub mod lifecycle;
