# nettables

A NetworkTables 4 server and client. The library in `src/` holds the logic,
each function with a contract that Verus proves; `app/` runs it over
WebSockets with tokio and hyper.

## Layout

- `src/protocol/`: the messages, topics, subscriptions and meta-topic values
  of the protocol.
- `src/frc_type.rs`, `src/msgpack.rs`, `src/text.rs`: value types and their
  wire codes, MessagePack framing, text helpers.
- `src/bimap.rs`, `src/int_map.rs`, `src/name_map.rs`: the maps the server
  keeps its state in.
- `src/server/`: the server's state (`state.rs`), its model (`model.rs`,
  `session_model.rs`), client sessions, message dispatch, binary value
  frames, value delivery, connection decisions, the local API, and the laws
  that relate its operations (`laws.rs`).
- `src/client/`: the client's state machine, topic names, and its laws.
- `app/`: the networked server and client (sockets, timers, JSON and
  MessagePack values at the edge).
- `tests/`: tests of the library.
