# coomi

The verified core of Coomi's keyless web search and of its manual model
mode ("copy the prompt, paste the answer"), written in Verus.

- `src/` — the library, every function proved against its contract:
  search-result pages and APIs read into hits (`serp`, `apis`, `json`),
  address canonicalisation and deduplication (`urls`), the relevance gate
  (`relevance`), engine order and failover decisions (`engine`, `failover`),
  rendering (`render`), the manual-mode prompt (`prompt`), the reading of
  pasted answers (`manual`, `calls`) and the manual-mode mailbox (`channel`).
  `bridge` holds the trusted calls into std, `regex`, `url`, `base64` and
  `serde_json`.
- `app/` — the HTTP requests of the `web_search` tool and the lock, oneshot
  channel and events of manual mode, around the library.
- `tests/` — the tests, run against the compiled library.
