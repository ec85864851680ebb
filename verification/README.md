# pg_replication

The client side of PostgreSQL logical replication, verified with Verus.

The library in `src/` does no input or output. Bytes from the server go into a
`Core`, and events and bytes for the server come out of it.

- `machine`: the protocol machine, from the startup message to the end of
  replication.
- `auth::scram`: the client side of SCRAM-SHA-256.
- `backend`, `protocol`, `codec`, `replication`: the messages of the server and
  of the client.
- `pgoutput`: the messages of the logical replication stream.
- `driver`: what drives a `Core` over a transport, apart from the transport.
- `wire`: the elementary fields of the wire format.
- `octets`, `crypto`: the buffers and the cryptography of other crates, and what
  the library relies on of them.
- `laws`: what holds of the library as a whole.

`app/` runs a connection over an asynchronous transport.
