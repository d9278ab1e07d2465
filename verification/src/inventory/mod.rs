//! The inventory of a rack: what was found on it, and how that is kept in a database.

pub mod database;
pub mod history;
pub mod laws;
pub mod prune;
pub mod read;
pub mod roundtrip;
pub mod rows;
pub mod types;
