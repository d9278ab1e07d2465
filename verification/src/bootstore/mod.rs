//! The bootstore: how sleds agree on what they need before the control plane is up.

pub mod fsm;
pub mod hello;
pub mod messages;
pub mod params;
