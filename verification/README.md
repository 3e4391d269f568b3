# tng_ingress

The ingress side of a trusted network gateway, verified with Verus.

- `ingress`: the configuration of an ingress, and the check of a destination to
  capture.
- `balancer`: round-robin choice of an upstream server.
- `load_balancer`: how a request is matched, rewritten and routed to an upstream
  server, and what is answered where it is not.
- `ohttp`: the oblivious HTTP layer. `forward_headers` reads the names of the
  headers to forward and takes them from a request, `base_url` writes the URL of an
  endpoint, `client_cache` finds the client that a request shares, and `security`
  puts these together.
- `headers`, `patterns`, `urls`: what is relied on of the `http`, `regex` and `url`
  crates.
- `text`: decimal numbers, byte order and rooted paths.

`app/` holds what talks to the network and reads JSON.
