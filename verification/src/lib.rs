//! Configuration values for an embedded MQTT broker: validated network
//! addresses, listener and router settings, and the hand-over of a
//! configuration snapshot when a broker is started.

pub mod broker;
pub mod client;
pub mod config;
pub mod connection;
pub mod ip;
pub mod ipv4;
pub mod ipv6;
pub mod numeral;
pub mod router;
pub mod server;
pub mod socket_addr;
pub mod text;
pub mod version;
