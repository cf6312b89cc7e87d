# sozu_lib

The decisions of a proxy worker, verified with Verus: its timer wheel, the slots
and limits of its sessions, the life of its listeners, the routing of TCP
connections by server name, the stages of a TCP session, the transfers on plain
and on TLS sockets, and the choice of a certificate.

- `src/` is the library. It holds no socket and reads no clock of its own but
  through a few trusted functions; each of these says what it calls and what is
  taken for granted of it.
- `app/` is the worker around it: sockets, kernel pipes, TLS sessions and the
  event loop. It performs what the library decides, and tells it how that went.
- `tests/` run the library.

Times are nanoseconds of one monotonic clock unless a type says otherwise.
Sockets, signing keys and contents that are kept elsewhere go by number.
