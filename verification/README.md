# unipotato

Routing, request parsing and response helpers for HTTP backends, written in
Verus with their behaviour proved against specifications.

- `src/` is the verified library:
  - `route.rs`: the route table. Routes are registered with `<name>`
    placeholders under a mount base; a lookup answers with the first route
    registered for the request's method whose path (static routes) or
    anchored regular expression (other routes) answers the path, together
    with the placeholder values. Lookups go through a small LRU cache whose
    answers are proved equal to the lookup itself.
  - `pattern.rs`: placeholder names and values, pattern anchoring, the full
    path and pattern under a mount base, and the regex calls.
  - `request.rs`: `Query` (parsed lazily, once), `Body` (UTF-8 text, JSON,
    form fields) and `Request` (path parameters).
  - `params.rs`: the string map used for parameters.
  - `handler.rs`: replies (status, content type, body).
  - `server.rs`, `logger.rs`: the server value and the decisions of the
    server, the logger and the development auto-reload supervisor.
  - `text.rs`: character-level string operations.
- `app/` holds the I/O around it: the hyper/tokio server, reading bodies,
  hyper responses, console logging and the auto-reload supervisor loop.
- `tests/` exercises the library.
