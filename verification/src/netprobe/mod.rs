//! The network probe: TCP and UDP streams of synthetic video frames.
pub mod clock;
pub mod config;
pub mod config_laws;
pub mod delivery;
pub mod frames;
pub mod log;
pub mod log_laws;
pub mod sender_laws;
pub mod tcp_client;
pub mod tcp_flow_laws;
pub mod tcp_laws;
pub mod tcp_server;
pub mod udp_client;
pub mod udp_laws;
pub mod udp_receive_laws;
pub mod udp_request_laws;
pub mod udp_send_laws;
pub mod udp_server;
pub mod wire;
pub mod wire_laws;
