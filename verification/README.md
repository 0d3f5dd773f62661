# rserver

A small HTTP toolkit whose logic is verified with Verus: request parsing,
routing along a trie of path segments, response serialisation,
`multipart/form-data` and chunked decoding, the client's request framing,
log lines and timestamps, and the decisions of the servers' polling loops.

- `src/` is the verified library. Public functions state their results in
  their contracts, as far as the library can see them: what a handler, a
  middleware, a stream or a server supplied by a user does is stated only
  through that code's own contract, and values that depend on the clock
  are bounded rather than fixed. The `law_*` proof functions state
  properties that relate several functions (a route added is the route
  found, a method's name parses back to it, a part's body ends at the
  first delimiter, ...).
- `tests/` runs the library on concrete inputs.
- `app/` holds what talks to the operating system: sockets, TLS (through
  `openssl`), signals (through `libc`), threads, files and standard output.
  The polling loops' decisions (what to do with an event, how a read or
  write turn goes on, which connections survive a drain, which handler
  answers a request) are made by library functions; the loops, the file
  lookup for static assets and the drain's timing stay there.
