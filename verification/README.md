# snakeway

The verified core of the Snakeway L7 reverse proxy, written in Verus.

- `src/normalization`: canonical request paths, query strings (their pairs
  kept in a `smallvec`) and HTTP/2 headers.
- `src/ctx`: hydration of a received request into its canonical form.
- `src/route`: longest-prefix routing with host matching.
- `src/traffic`: upstream identity, protocol choice, the upgrade handshake,
  smooth weighted round robin, passive health and request counters; the
  per-service and per-upstream state is kept in `dashmap` maps.
- `src/runtime`: reload planning, the routers of the listeners, and upstream
  endpoints.
- `src/jwt`: the JWT bearer-token auth device (HS256).
- `src/device`: the WASM device host's buffering and failure decisions.

`app/` holds what runs around the library: JSON decoding of tokens,
conversion of `http` requests, and the shared traffic manager.
