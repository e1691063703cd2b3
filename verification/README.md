# random_image_server

A small HTTP server that hands out a random (or the next) file from a set of
configured images and PDF documents. The library under `src/` holds its logic,
specified and proved with Verus; `app/` holds the server itself (configuration,
disk and network access, the HTTP service), written in plain Rust on top of it.

Layout of `src/`:

- `lib.rs` - the served extensions, request routing, replies, the errors of the
  file routes and of loading a source, and the decisions taken while loading
  the configured sources.
- `cache.rs` - cache keys (a URL or a path) and their extensions, cached values,
  the `CacheBackend` trait, the in-memory cache, and the bookkeeping of the
  file-system cache (which file holds which key, with the MD5 digest of the
  bytes written there).
- `extension.rs` - file names and extensions of slash-separated paths.
- `text.rs` - character helpers (ASCII lower-casing, trimming, comparing).
- `outside.rs` - the calls into `url`, `md5`, `uuid`, `mime_guess`, `hyper` and
  `rand`, with the contracts the proofs rely on.
- `laws.rs` - properties that span several functions: a read gives back the last
  write, removing a fresh key undoes its write, `/sequential` serves every file
  once per round, and others.
