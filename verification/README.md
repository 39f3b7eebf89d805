# pgprox

The decisions a multitenant Postgres connection pooler makes, written as
verified functions of plain values, and the I/O that carries them out.

- `src/` is the library, verified with Verus: what a statement does and
  where it may run (`classify`, `hints`, `route`, `router`, `replica`), the
  client handshake and its credentials (`startup`, `state`, `auth`), what a
  server owes and what a held extended-query sequence answers (`flush`,
  `sequence`), opening upstream connections (`connect`, `backend`), cancel
  keys (`cancel`), the answers the proxy reads for itself (`probe`), the wire
  format (`proto`, `frontend`, `encode`, `shell`), and the certificate checks
  (`tls`).
- `app/` is ordinary Rust around it: sockets, TLS files, clocks, the polling
  loop, and the error types with their `Display`.
- `tests/` exercises the library from outside.

Not here: the relay that decides, frame by frame, when a session's server
connection may go back to the pool (the release rule: only at
`ReadyForQuery('I')`, with no extended-query sequence or COPY outstanding,
and never while the session is pinned), and the replay of a session's
prepared statements and settings onto a newly acquired connection. Both are
built on the pool's pin state and on the protocol crate's session state,
which live in crates this project does not contain, so neither the rule nor
the replay is stated or verified here. The README's promises that rest on
them (never exceed the pool's cap, never drop a connection mid-transaction)
are not stated either.
