# Bosun

An API gateway in front of a Frigate NVR: it authenticates callers by the
`X-API-Key` header and applies a default-deny allowlist of HTTP method and
path-glob rules per key, then reverse-proxies permitted requests.

- `src/` is the verified library (Verus): the rules, the glob matcher, the
  access-control decision and what the proxy forwards, each with its contract,
  and the laws the allowlist keeps as proof functions.
- `app/` is the server around it: configuration file loading, the HTTP
  router, the middleware and the streaming proxy.
- `tests/` runs the library on concrete requests.
