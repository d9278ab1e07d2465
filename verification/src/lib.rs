//! Verified control-plane logic for an Oxide rack.

pub mod address_laws;
pub mod artifacts;
pub mod baseboard;
pub mod bootstore;
pub mod external_ip;
pub mod http;
pub mod ids;
pub mod inventory;
pub mod link;
pub mod mac;
pub mod net;
pub mod order_laws;
pub mod ordmap;
pub mod oxql;
pub mod port;
pub mod project_create;
pub mod service_laws;
pub mod services;
pub mod sim;
pub mod sled_agent;
pub mod storage;
pub mod text;
pub mod time;
pub mod wicket;
