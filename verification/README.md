# bench_im

The rules of bench.im, a network latency monitor, as a library verified
with Verus, and the two programs around it.

- `src/` — the verified library: address parsing and trusted-proxy ranges
  (`net`), text helpers (`text`), the records and their public forms (`dto`),
  region lookup and applicant names (`geo`), the region database, the
  bounds its search needs and its lookups (`region`), errors (`error`), the
  application rules (`application`), request rules, cookies and assets
  (`web`), form checks (`forms`), time rules (`timing`), ping series
  (`pings`), page data and the application flow (`pages`), settings
  (`config`), the client's rounds and reports (`client`), and properties
  that span modules (`laws`).
- `tests/` — tests of the library on concrete values.
- `app/` — the server (axum, sea-orm, askama) and, with `client` as the
  first argument, the monitoring client (reqwest, surge-ping).
