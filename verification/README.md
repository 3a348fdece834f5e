# laminar

Laminar is an application-level transport protocol built on top of UDP that provides
configurable reliability and ordering guarantees: unreliable, sequenced, reliable unordered,
reliable ordered and reliable sequenced packets, fragmentation of large payloads,
acknowledgements with resending of lost packets, heartbeats, protocol version checks and
basic connection management.

## Layout

- `src/` is the protocol library, written in Verus. Every function carries a contract that
  Verus proves: the byte layout of the packet headers and how they read back, the
  acknowledgement bookkeeping, the sequence buffer, the arranging streams, fragmentation and
  reassembly, the reliability system that ties them together, the virtual connection and the
  registries of connections. Time is counted in nanoseconds from an origin the caller
  chooses, and addresses are plain values (`packet::SocketAddress`).
  - `packet/`: packet types, headers and their encoding, the packet reader.
  - `infrastructure/`: acknowledgements, arranging (ordering and sequencing), fragmentation,
    the sequence buffer.
  - `net/`: acknowledgement records, the reliability system, virtual connections, the
    connection controller and registries, connection states and the connection factory.
- `tests/` runs the library on concrete values.
- `app/` is the plain Rust around the library: the UDP socket and its polling loop,
  channels, threads, async peers, TCP connections, logging and the link conditioner that
  simulates packet loss. It hands the library received datagrams and user packets and
  performs the sends and event deliveries the library decides on.
