# remoteio

A browser-based server manager: sync targets pushed and pulled with rsync,
named todo lists, a process table and a shutdown command, all driven over a
WebSocket.

- `src/` is the verified library (Verus). Each incoming message is read as a
  `message::Message`; the services decide what it does:
  - `todo` — the named lists, every `todo_*` message, and restoring the lists
    from their store;
  - `sync` — sync targets, rsync arguments, one sync per target at a time,
    dry-run previews and run outcomes;
  - `server`, `session` — connection state, routing of message types, the
    status page and shutdown;
  - `timestamp` — `YYYY-MM-DD HH:MM:SS` rendering of Unix time;
  - `process`, `text` — small text and number helpers;
  - `laws` — properties proved across messages and calls.
- `app/` is the program around it: the HTTP/WebSocket server, files, rsync
  processes, `/proc` and JSON encoding.
- `tests/` runs the library on concrete cases.
