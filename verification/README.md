# rustube (verified core)

The part of a YouTube video fetcher that decides and computes, verified with
Verus:

- `src/json.rs` — locating the first complete JSON object in a page, byte by
  byte, with its laws (extraction is idempotent; trailing text does not matter).
- `src/id.rs` — video ids, their watch and embed URLs, and reading an id out of
  a URL.
- `src/fetcher.rs` — what the fetcher reads out of the pages (age restriction,
  playability candidates, player configurations, the player's script URL) and
  the URLs it requests.
- `src/playability.rs` — whether a video may be fetched.
- `src/pattern.rs`, `src/weburl.rs`, `src/outside.rs` — the trusted calls into
  the `regex` and `url` crates.

`app/` holds the network requests (`reqwest`, `tokio`) and the reading of JSON
and query strings (`serde_json`, `serde_qs`).
