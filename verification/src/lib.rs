//! The logic of a Tipt node: the client-node protocol, the life of a client connection, and the
//! answers to plain HTTP requests.
pub mod client;
pub mod compat;
pub mod handshake;
pub mod headers;
pub mod http;
pub mod layout;
pub mod msgpack;
pub mod numerals;
pub mod protocol;
pub mod server;
