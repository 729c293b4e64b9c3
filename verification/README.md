# tipt-node

The logic of a Tipt node, verified with Verus, and the server around it.

- `src/msgpack.rs`: sizes of MessagePack values, and the heads of maps, arrays, strings and integers.
- `src/handshake.rs`, `src/compat.rs`: the body of a handshake request, and which protocol versions
  are compatible.
- `src/protocol.rs`: packet types, request types and the reading of packets from clients.
- `src/layout.rs`: how packets are laid out, and what is proved of reading them.
- `src/client.rs`: the handshake with its timeout, and the life of a client connection.
- `src/headers.rs`, `src/http.rs`, `src/numerals.rs`: HTTP responses and the answers to plain HTTP
  requests.
- `src/server.rs`: log levels, and which connections become websockets.
- `app/`: the program: arguments, logging, sockets and timers.

What is believed rather than proved are the contracts of the functions marked
`#[verifier::external_body]` and of the one `assume_specification`; each names the function of
another crate that it calls.
