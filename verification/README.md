# httpd

A small HTTP/1.1 server. The library (`src/`) holds its logic, each function
with a contract that Verus proves; the program (`app/`) does the network and
file work around it.

## Layout

- `src/text.rs`, `src/listmap.rs`: text helpers and an insertion-ordered map
  used throughout, with their specifications.
- `src/uitls/multi_map.rs`, `src/multi_value_map.rs`, `src/utils/`: the
  multi-valued header maps, the current time as text, a connection counter,
  the MIME types of common file extensions.
- `src/uri.rs`: splitting a request target into its parts, percent-encoding,
  and the cleaned path a file service may use.
- `src/message.rs`, `src/reqr.rs`, `src/respw.rs`, `src/request.rs`,
  `src/response.rs`: a message read step by step off the connection, and its
  readers and writers.
- `src/http/`: headers, bodies with gzip, deflate or brotli coding, and the
  HTTP/1.1 message reader and writer as step functions.
- `src/router.rs`, `src/mux.rs`, `src/middleware.rs`, `src/services/`:
  routing by path and the services behind the routes.
- `src/ws_impl.rs`, `src/protocols.rs`, `src/serve.rs`: the WebSocket
  handshake, what a connection does after each message, and which
  accepted connections are served, made to wait or refused.
- `src/logging/`: log file rotation and the coloured log line renderer.
- `app/`: `main`, the accept loop, the read and write loops that drive the
  library's step functions, and the log file's renaming.

## Laws

Public proof functions named `law_*` state what holds across calls: a value
read back after a write, what encoding keeps and changes, the shape of a
cleaned path, and what routing finds after a registration.

## Building

`tests/` holds the tests; they link the outside crates named in `Cargo.toml`.
