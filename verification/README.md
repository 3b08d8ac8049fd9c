# axum-reverse-proxy

A reverse-proxy building block for Axum applications, with its decisions verified by
[Verus](https://github.com/verus-lang/verus).

- `src/` is the verified library: which upstream URI a request goes to, which header fields go
  upstream and come back, when a request is refused, how a WebSocket upgrade is asked for, when a
  request is retried, which upstream takes it, and what is discovered in containers. Each function
  states what it does over sequences of characters, maps of header lines and the like; files whose
  names end in `_laws` state what holds of all requests.
- `app/` is the code around it: Axum and Tower services, HTTP and WebSocket connections, the Docker
  daemon.
- `tests/` runs the library on concrete requests.

What the library takes from other crates (`http`, `url`, `sha1`, `base64`, `percent-encoding`,
`rand`) stands behind small functions whose contracts are trusted, each with a comment that says
what it claims.
