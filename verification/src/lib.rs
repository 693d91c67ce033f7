//! Verified core of an audio-over-IP transmitter and receiver.

pub mod advertisement_laws;
pub mod arc_server;
pub mod byte_utils;
pub mod channel_rx_buffer;
pub mod channels_subscriber;
pub mod cmc_server;
pub mod collection_laws;
pub mod common;
pub mod device_info;
pub mod device_laws;
pub mod device_server;
pub mod discovery_laws;
pub mod flags;
pub mod flow_request_laws;
pub mod flow_table;
pub mod flows_control_server;
pub mod flows_receiver;
pub mod flows_rx;
pub mod flows_transmitter;
pub mod flows_tx;
pub mod hex_text;
pub mod info_mcast_server;
pub mod list_laws;
pub mod mdns_client;
pub mod mdns_server;
pub mod media_clock;
pub mod media_laws;
pub mod net_utils;
pub mod protocol;
pub mod real_time_box_channel;
pub mod receiver_laws;
pub mod reception_laws;
pub mod recorder;
pub mod ring_buffer;
pub mod ring_item_laws;
pub mod ring_laws;
pub mod samples_collector;
pub mod samples_utils;
pub mod self_info;
pub mod soundcard;
pub mod state_storage;
pub mod subscriber;
pub mod subscriber_laws;
pub mod subscription_laws;
pub mod text;
pub mod transmit_laws;
pub mod transmit_round;
pub mod wire;
pub mod wire_laws;
pub mod wired;
