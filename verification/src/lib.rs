//! The logic of a Trojan proxy server.

pub mod address;
pub mod address_laws;
pub mod auth;
pub mod ip;
pub mod ip_laws;
pub mod packet;
pub mod packet_laws;
pub mod pieces;
pub mod ranges;
pub mod request;
pub mod request_laws;
pub mod session;
pub mod session_laws;
pub mod socket;
pub mod stream;
pub mod stream_laws;
pub mod text;
pub mod text_laws;
pub mod tls;
pub mod tunnel;
pub mod tunnel_laws;
