# modular-agent-jev

Modules that ask TypeSafe AI's System One model (Jev) structured questions
about a piece of input, with their decision logic verified in Verus.

- `src/` — the verified library:
  - `text` — character-level text handling (`trim`, `truncate`, decimal
    notation) with its models;
  - `error` — the error kinds and how a failed HTTP response maps onto them;
  - `retry` — the retry policy of a System One call as a state machine
    (`SystemOneCall::step`), the backoff delay and the `Retry-After` reading;
  - `client` — the client settings, the endpoint URL and the cache that shares
    one client per (base URL, API key) pair;
  - `modules` — the configuration rules and defaults of the modules.
- `app/` — the HTTP transport (reqwest, tokio), the JSON wire types (serde)
  and the Modular Agent module glue.
- `tests/` — tests of the library.
