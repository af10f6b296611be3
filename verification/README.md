# Whoosh

Whoosh sends files, photos, and videos between computers over QUIC, and speaks
Android Quick Share and Apple AirDrop to phones.

- `src/` is the library, verified with Verus: the wire formats, the handshakes,
  the sessions as state machines, the rules on names and paths, and the plans for
  records on the network. Contracts are stated over the views of the types.
- `tests/` runs the library on concrete values, with the sessions of both sides
  wired together in memory.
- `app/` is the program: sockets, TLS, files, mDNS and the command line.

Every call into an outside crate stands in a small function of its own, whose doc
comment says what is claimed of the call. Most of them are in `crypto.rs`,
`compress.rs`, `encoding.rs`, `airdrop/property.rs` and `quickshare/proto.rs`.
