# api_debugger

An HTTP traffic recorder and replay debugger. A middleware records every
request and response in SQLite; an API lists and shows them, replays a
stored request against the server and diffs the original and replayed
JSON bodies.

- `src/` is the verified library (Verus): the JSON diff engine and what it
  guarantees (`diff`, `diff_laws`, `diff_swap`, `json`), the list query plan and paging
  (`listing`, `models`), the recorded-header encoding (`headers`,
  `json_text`), replay planning (`replay`), error replies (`errors`), and
  small text helpers (`text`, `db`).
- `app/` is the server around it: actix-web handlers and middleware, the
  SQLite access, the HTTP client, and the serde copies of the library's
  records.
- `tests/` exercises the library on concrete values.
