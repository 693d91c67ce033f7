//! Formats of packets.

pub mod flows_control;
pub mod mcast;
pub mod req_resp;
