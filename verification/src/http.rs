//! The parts of a handshake request, as their kinds.

use vstd::prelude::*;

verus! {

/// The method of a request.
#[derive(Debug)]
pub enum Method {
    Get,
    Post,
    Put,
    Delete,
    Missing,
}

/// The URI of a request.
#[derive(Debug)]
pub enum Uri {
    Valid(String),
    Missing,
}

/// The scheme of a request.
#[derive(Debug)]
pub enum Http {
    Http,
    Https,
    Missing,
}

/// The `Upgrade` field of a request.
#[derive(Debug)]
pub enum Upgrade {
    Websocket,
    Missing,
}

/// The `Connection` field of a request.
#[derive(Debug)]
pub enum Connection {
    Websocket,
    Missing,
}

/// The `Sec-WebSocket-Key` field of a request.
#[derive(Debug)]
pub enum SocketKey {
    Key(String),
    Missing,
}

} // verus!
