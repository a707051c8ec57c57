# dns-filter

A local DNS filtering daemon whose decisions are proved correct with Verus.

`src/` is the verified library:

- `filter`, `rules`, `matchers`, `domain_rules`: rule-list parsing and the
  matchers that decide whether a domain is blocked.
- `message`, `dns`, `server`: DNS messages and what a query is answered with
  (FORMERR, NXDOMAIN, a cached response, or what upstream answers).
- `cache`: the response cache and its expiry.
- `upstream`, `net`: upstream resolvers, their ordered failover, socket
  address parsing and printing, and the framing the transports use.
- `config`, `app_config`, `daemon`: settings, their defaults, where they are
  read from, and what the daemon runs with.
- `stats`, `storage`, `metrics`, `dashboard`: query counters, query-log
  summaries, metric labels and dashboard text.
- `text`, `collections`: character-level helpers and the `dashmap`
  collections the library holds.

`app/` is the daemon around it: sockets, files, the SQLite query log, the
metrics endpoint, the terminal dashboard and the command line.

`tests/` runs the library on concrete values.
