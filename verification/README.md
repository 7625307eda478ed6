# komika

The rules of the Komika manga server, written in Verus and proved against their
contracts: the MangaDex catalogue and chapter sweeps (pagination, window slides, drop
and failure accounting, when a pass may latch completion), the cover crawl, warmer and
quality ladder, the source-ingest job bookkeeping, discovery diffs, deduplication
signals, the phase-F cleanup plans and their redundancy check, comic-type and status
rules, the HTTP edge (bearer tokens, trusted-proxy client addresses, image paths,
upload refusals, fixed replies, the metrics exposition), comment-image processing and
the cover perceptual hash.

Layout:

- `src/` — the verified library. Calls into `anyhow`, `hex`, `chrono` and `image`
  stand behind small trusted wrappers whose contracts state what those crates
  document or name their results.
- `tests/` — the library's tests, run against the real outside crates.
- `app/` — the unverified glue: serde decoding of MangaDex JSON into the library's
  records, `std::net` address parsing for the trusted-proxy list, the `f64` token
  bucket, and a small offline command line over the library.
