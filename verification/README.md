# netrail

NetRail is a local search console: it fans a query out to DuckDuckGo, a
self-hosted SearXNG instance and the Brave Search API, merges what comes back,
keeps an optional encrypted history, and opens results in a browser of the
user's choice. The API listens on `127.0.0.1:7421`.

## Layout

- `src/` — the library, verified with Verus. Every decision of the program
  lives here with its contract: URL and host safety checks (open URLs, backend
  URLs, DNS pinning), IPv4/IPv6 parsing, settings defaults, validation and
  environment overrides, backend selection, result extraction from backend
  answers, deduplication and interleaving of results, token authentication,
  per-identity rate limits, the history's field encryption and exports,
  browser discovery from desktop entries, audit-log rotation, and the typed
  error answers. Laws that span functions are public proof functions
  (`lemma_*`).
- `tests/` — tests of the library on concrete values.
- `app/` — the headless server `netrail-api`: HTTP routing (axum), network
  calls to the backends (reqwest), the SQLite store (rusqlite), the keyring,
  the settings file, the audit file and process spawning. It hands plain values
  to the library and acts on what it answers.

## Running

`netrail-api` refuses to start without `NETRAIL_API_TOKEN`; set it to a
secret, or to an empty value to run without authentication on a trusted host.
