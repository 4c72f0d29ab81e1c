# coomi_agent

Verified core of the Coomi agent: context-pressure classification, model
response recovery, tool-call validation, deduplication and planning, tool
output trimming, provider error reporting, the memory store's file format,
merging and ranking, and first-provider setup decisions. The functions in
`src/` are proved by Verus against their `requires`/`ensures`, except the
small `#[verifier::external_body]` wrappers that call std or an outside crate
(path joins, MD5, `serde_json`, Unicode case, `anyhow` formatting, HTTP status
numbers): their contracts are trusted, not proved. The `law_*` proof
functions state properties that hold across calls.

- `src/` — the verified library (one module per concern; `text` and `json`
  hold the shared string and JSON models).
- `tests/` — executable tests of the library.
- `app/` — the unverified runtime around it: file and terminal I/O, the
  asynchronous tool loop, and serde conversions.
