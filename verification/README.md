# rust_web_server

A static resource web server with host-name binding, hotlink protection,
history-mode fallback, gzip and request forwarding to proxy addresses.

The logic is a library verified with Verus (`src/`); the program around it
(`app/`) reads the configuration file, opens the listeners, reads and writes
sockets and files, and prints and logs.

## Layout

- `src/strmap.rs`: an ordered string map with distinct keys, used for
  headers and parameters, and its lookup laws.
- `src/text.rs`: character-sequence helpers (search, split, join, replace,
  trim, decimal digits) with their specifications.
- `src/config.rs`: server settings, the built-in defaults, and how resource
  paths resolve against a server's root (including the try-files path for an
  empty request path).
- `src/http/request.rs`: parsing request text, query strings, URL parts, the
  data part of forwarded requests.
- `src/http/response.rs`: status lines, header assembly, gzip decision,
  error pages and the final response bytes.
- `src/request/request.rs`: routing a request to the server bound to its host,
  path safety, and choosing a proxy address.
- `src/request/listen.rs`: grouping host bindings by port and planning one
  listener per port.
- `src/proxy.rs`: preparing a forwarded request and reading its answer.
- `src/file_safe.rs`, `src/gzip.rs`, `src/template.rs`, `src/print.rs`,
  `src/ssl.rs`, `src/utils/tools.rs`, `src/base.rs`: smaller pieces.
- `src/outside.rs`: the calls into std and the outside crates (`regex`,
  `url`, `http`, `percent-encoding`, `serde_json`, `flate2`, `rand`), each
  with the contract the rest relies on.
- `app/`: `main`, the configuration file (JSON via serde), threads, sockets,
  TLS (native-tls), files, the clock (chrono), console and log output.

## Configuration

On first run a `config.json` with the default listening group is written. A
group names its `listen_ip`, `listen_port`, `buffer_size` and the host names
it answers (`bind_server_name`), each with its server settings. A
response-header item may hold several header lines, each sent as a header of
its own. The error page for a status code is `<root_path>/<code>.html`.
