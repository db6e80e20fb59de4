# candy

The request-handling core of a static-file web server, with its contracts
proved by Verus.

- `src/` is the verified library: HTTP/1.x request parsing and response
  building, path resolution under a document root, byte ranges, content
  negotiation and compression, HTTP/2 framing, settings, stream states and
  flow control, header-block encoding and decoding on top of hpack (whose
  tables the contracts name and follow), the shared dictionaries scripts
  use (capacity accounting, expiry, least-recently-used eviction, counters),
  the helpers scripts call (URL and query coding, digests, base64, CRC32,
  dates),
  reverse-proxy upstream selection, access log lines, and configuration
  checking. Calls into outside crates (flate2, base64, crc32fast, md5,
  sha1, hmac, hpack, dashmap, http, chrono) and into std where vstd has no
  specification go through small trusted items, each documented with what
  its contract claims.
- The HTTP/1.x, proxy and script modules live under `src/web/` (the name
  `http` is the outside crate whose header map they use).
- `app/` is the program around it: command line, configuration file,
  sockets, threads, files and the access log output.
- `tests/` exercises the library on concrete values.
