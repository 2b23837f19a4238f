//! A peer-to-peer chat node core for delay-tolerant networks.
//!
//! The library models endpoints over datagram, stream and bundle
//! transports, a framed wire codec for chat messages and
//! acknowledgements, an ordered conversation store with pluggable
//! ordering strategies, the dispatcher rules that route received
//! bytes, and an earliest-delivery-time predictor over a contact plan.

pub mod ack_config;
pub mod codec;
pub mod config;
pub mod dispatch;
pub mod encoding;
pub mod endpoint;
pub mod events;
pub mod message;
pub mod panel;
pub mod peer;
pub mod peer_manager;
pub mod predictor;
pub mod store;
pub mod strutil;
pub mod util;
