//! The command line: what can be asked for, and the filters each command sends.

pub mod commands;
pub mod config;
