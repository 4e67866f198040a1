//! Checks the inputs of a single remote script run and builds the exact
//! OpenSSH client invocation for it.

pub mod cli;
pub mod text;
pub mod error;
pub mod shell;
pub mod config;
pub mod ssh;
pub mod validation;
pub mod execution;
