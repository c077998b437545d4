//! A small websocket chat server library: parsing of the opening handshake,
//! the `Sec-WebSocket-Accept` key, per-connection send queues and the event
//! decisions of the servers, all as verified functions. The sockets and the
//! event loop live with the caller.

pub mod chat;
pub mod connection;
pub mod events;
pub mod handshake;
pub mod http;
pub mod message;
pub mod parser;
pub mod result;
pub mod socket_key;
pub mod text;
