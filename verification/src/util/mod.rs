//! Command execution outcomes and tool detection.
pub mod detect;
pub mod exec;
