# monoio_http

An HTTP/1 library for the monoio runtime, with its logic verified by Verus.

- `src/` is the verified library: header maps, the HTTP/1 head and body codecs
  (request and response heads, fixed and chunked bodies, the framing headers),
  content codings, cookies, URL queries and urlencoded forms, multipart forms,
  the single-producer channel state behind streamed payloads, the client's
  connection keys, configuration and connection pool. Calls into `httparse`,
  `http`, `bytes`, `cookie`, `serde_urlencoded`, `flate2`, `brotli`, `memchr` and
  `rustls` stand behind small trusted wrappers whose contracts are stated in their
  doc comments.
- `app/` is the asynchronous plumbing around it: bodies read as async streams,
  codecs over monoio connections, the payload channels shared between tasks, TLS
  and transport connectors, and the client that sends requests.
- `tests/` exercises the library from outside.
