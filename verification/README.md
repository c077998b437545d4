# punpun

A small websocket chat server, with its logic verified by Verus.

`src/` is the verified library:

- `text`: splitting bytes on a separator, UTF-8 decoding, white-space
  trimming and colon removal, each against a spec function.
- `parser`: the opening handshake — request line and header fields — parsed
  from the bytes a client sent, with the field map's laws.
- `socket_key`: the `Sec-WebSocket-Accept` value (SHA-1 from the `sha1`
  crate, base64 from `rustc-serialize`).
- `handshake`: the handshaking server's event decisions for each client.
- `connection`, `chat`: per-connection send queues and the broadcast
  server, whose clients live in a `slab`.
- `events`, `result`, `http`, `message`: readiness sets, errors and the
  request's parts.

`app/` holds the event loops and sockets (mio, std::net), logging and the
Redis connection, and calls the library for every decision. `tests/` runs the
library on concrete inputs.
