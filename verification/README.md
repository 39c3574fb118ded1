# minecraft_server

A small Minecraft server whose protocol core is verified with Verus.

- `src/` is the core: VarInts and packet framing, the fields of packets, the
  handshake and login, the packets of the play state, keep-alives and the loops
  that pace them, and the state machine that takes a connection from its first
  packet to the play state. Every verified function carries a contract; public
  proof functions named `law_...` state what holds across functions.
- `src/buffer.rs` describes the operations of the `bytes` crate that the core
  uses. These descriptions, and the few in `src/fields.rs` and
  `src/keep_alive.rs` for `uuid`, `rand`, the clock and lossy UTF-8 decoding,
  are believed, not proved. Of the four that read the clock or a generator
  nothing is claimed.
- `app/` is the server around it: sockets, timers and tasks.
- `tests/` runs the core on concrete packets.
