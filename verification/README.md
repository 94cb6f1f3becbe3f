# wallet

An educational investment wallet (cash deposits, buying and selling assets at
market price, an immutable ledger, an informative market screen), with its
rules written in Verus and proved against their contracts.

## Layout

- `src/` — the verified library. Money is modelled as an exact decimal
  (`money`), and every rule that decides something is a function with a
  contract: the trades and the ledger (`wallet`, `statement`), the market
  screen (`market`), the quotes that price the catalogue (`quotes`), the
  pt-BR formatting (`format`), the login lockout (`throttle`), sessions,
  access tokens, CSRF and passwords (`session`), request handling decisions (`web`,
  `pages`, `flash`), errors (`error`), configuration values (`config`) and
  the language catalogue (`i18n`). Calls into `rust_decimal`, `sha2`,
  `base64`, `subtle`, `rand`, `time`, `argon2`, `password-auth` and
  `jwt-simple` stand behind small trusted wrappers whose contracts say what
  those crates do.
- Two keyed tables, the lockout counters and the exchange rates, are kept in
  a `Vec` with distinct keys rather than a `HashMap`: vstd specifies what a
  `HashMap` lookup finds only for keys whose hashing it models (integers and
  `bool`, not `String`), while the `Vec` form lets the contracts state it.
- `tests/` — tests of the library on concrete values.
- `app/` — the HTTP server around the library: routing, templates, the
  database, the external feeds, floating-point chart geometry and the
  background jobs. The optional OTLP trace and metrics export of the
  service is not part of it: logs go to the standard output only.
