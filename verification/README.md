# mmdf-client (verified core)

A local MITM + domain-fronting proxy client. A browser talks HTTP or SOCKS5
to the local proxy; hosts that belong to a fronting group are TLS-terminated
locally with a leaf minted by an on-device CA and re-sent inside a new TLS
connection to a benign front (SNI such as `www.google.com`); every other
host is reached directly.

## Layout

- `src/` — the library, verified with Verus:
  - `config.rs` — groups, passthrough and extra domains, the shipped
    defaults, the fronting decision (`front_for`) and `validate`.
  - `http.rs` — head framing, `host[:port]` and absolute-URI splitting,
    request planning, origin-form rewriting, keep-alive.
  - `relay.rs` — response body framing and the body relay state machine.
  - `socks.rs` — the SOCKS5 server handshake as a state machine.
  - `proxy_server.rs` — routes, fixed replies, counters, the server value.
  - `mitm.rs` — CA and leaf certificate profiles, making and loading the
    on-device CA, minting leaves, the per-domain TLS configurations and
    their cache.
  - `logs.rs`, `handles.rs`, `probe.rs`, `cli.rs` — the Android log ring,
    proxy handles, probe answers, command-line parsing.
  - `text.rs` — character and byte helpers; `bindings.rs` — the trusted
    calls into `httparse`, `url` and std; `pki.rs` — the trusted calls into
    `rcgen`, `rustls-pemfile`, `time` and `rustls`, with models of what
    rcgen's parameters and certificates state.
- `app/` — I/O around the library: the tokio accept loops and byte pipes,
  TLS (rustls/tokio-rustls), the CA files, config files
  (serde/toml), logging, and the Android JNI entry points.
- `tests/` — tests of the library.
