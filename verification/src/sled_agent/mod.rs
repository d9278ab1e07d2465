//! The agent that runs on each sled.

pub mod agent;
pub mod error;
pub mod laws;
pub mod startup;
