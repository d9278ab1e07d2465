//! The storage of a sled.

pub mod disk;
pub mod laws;
pub mod manager;
pub mod path;
pub mod resources;
pub mod worker;
pub mod worker_laws;
