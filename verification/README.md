# shaman

Shared-memory IPC between a server and its clients on one machine. The
server hands each client two shared-memory rings (created with shmem-ipc)
over a UNIX domain socket; after that the two sides exchange framed
messages through the rings.

A frame is the message's length as `usize` bytes in the machine's byte
order, followed by the message.

Layout:

- `src/` — the verified library (Verus):
  - `endian.rs`: native-order length headers;
  - `codec.rs`: frames and the byte copies into a ring's window;
  - `duplex.rs`: the spill buffers of the sending and receiving ends;
  - `stream.rs`: laws over byte streams — frames delimit themselves, and
    what a receiver hands out is what the sender accepted, in order;
  - `server.rs`: the server's connection table and event dispatch;
  - `client.rs`: the client's readiness state;
  - `errors.rs`, `types.rs`: the error and message types.
- `app/` — the I/O around it: sockets, polling, the rings' `unsafe` calls,
  the server thread, the async client, and copies of the types with serde
  and thiserror derives.
- `tests/` — tests of the library.
