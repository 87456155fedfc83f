//! Peer-to-peer networking and the HTTP API.

pub mod http;
pub mod p2p;

pub use http::HttpApi;
pub use p2p::P2PNetwork;
