# helixrack

The core of a single-threaded HTTP/1.1 server for Rack applications, written and
proved in Verus.

`src/` holds everything that the server computes and decides: reading requests,
telling where they end, answering and refusing them, keeping connections alive,
counting requests in flight, spooling large bodies, watching over slow requests,
and checking settings. It touches neither sockets nor files; the one call that it
makes into the system is the attempt to set up a ring, by which it finds out what
the kernel offers. A connection is a state machine: each step takes in what has
happened (bytes, an answer, a finished write) and returns what to do next.
`src/laws.rs` states what holds of connections as a whole, and `src/runs.rs` what
becomes of all that arrives on one: however it is cut into reads, the requests are
answered once each and in order.

`app/` is the server around it: sockets and timers through tokio, temporary files,
the watching thread, and the Ruby extension that calls the application.

Four things are taken on trust, and each is marked where it stands: what `httparse`
makes of a request head, which is named but not spelled out; that the standard
library tells UTF-8 from other bytes; three error numbers of `libc`; and the attempt
of `io-uring` to set up a ring, of which nothing is claimed.
