//! The protocol core of a SOCKS5 proxy: configuration, handshake, requests, UDP datagrams,
//! random IPv6 egress, and the state machine of one client connection.

pub mod addr;
pub mod auth;
pub mod block;
pub mod block_laws;
pub mod config;
pub mod config_laws;
pub mod digits;
pub mod failure;
pub mod handshake;
pub mod ipv6_laws;
pub mod ipv6_text;
pub mod pump;
pub mod random;
pub mod request;
pub mod server;
pub mod service_laws;
pub mod session;
pub mod session_laws;
pub mod text;
pub mod text_laws;
pub mod udp;
pub mod wire_laws;
pub mod written;
