//! The command tree: commands, groups and their automation rules.

pub mod again;
pub mod auto;
pub mod command;
pub mod env;
pub mod group;
pub mod inherit;
pub mod laws;
