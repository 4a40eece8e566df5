//! Limavel: creates, provisions and manages Lima virtual machines for
//! Laravel development. This crate holds the decisions and the text that
//! the tool computes; the program around it runs the processes and touches
//! the files.
use vstd::prelude::*;

pub mod ansible;
pub mod cli;
pub mod commands;
pub mod config;
pub mod error;
pub mod flows;
pub mod hosts;
pub mod lima;
pub mod lima_config;
pub mod text;

verus! {
} // verus!
