# nat_traversal

A small NAT traversal tool. A server on a public host accepts one tunnel
client, which runs inside a private network, and relays the HTTP requests and
SSH sessions of visitors through that tunnel to the client, which forwards
them to their targets.

## Layout

- `src/` — the library, written in Verus and verified:
  - `message.rs`: the messages of the tunnel protocol, their binary frame
    (`encode_frame`, `decode_frame`) and the laws that a frame checks and
    carries its message back unchanged;
  - `checksum.rs`: the 16-bit one's-complement checksum of a frame;
  - `batch.rs`: splitting a payload into bounded messages, and the law that
    the batches join back into the payload;
  - `session.rs`: the server's side of its session with the tunnel client
    (authentication, its deadline, putting split HTTP replies back together);
  - `client.rs`, `server.rs`: the decisions of the client and the server
    around the streams they relay;
  - `http.rs`, `forward.rs`: reading relayed HTTP requests and rendering the
    responses that go back;
  - `protocols.rs`, `context.rs`, `cache.rs`, `utils.rs`, `text.rs`,
    `clock.rs`, `error.rs`: supporting pieces;
  - `tool/`: the configuration of the command-line tool.
- `tests/` — tests of the library on concrete values.
- `app/` — the command-line tool: argument handling, the sockets and the
  event loops, which call the library for every decision.
