# agg_server

A news-feed server: users subscribe to sources, read the records that the
sources publish, and star records.

- `src/` is the verified library. `db::models` holds the rows of the five
  tables and `Database`, a snapshot of them; `db::queries` (and
  `db::queries::sources`) computes the listings, the user lookup and the
  changes (starring, deleting a source's stars, subscribing, unsubscribing),
  each change returning the row-level `db::writes::Write`s that bring the
  stored tables to the new state; `db::order` sorts newest first and pages;
  `server::auth` reads bearer tokens; `server::handlers` holds the request
  types and the per-endpoint decisions; `laws` proves properties that span
  calls.
- `app/` is the HTTP server: actix-web routes and middleware, and the diesel
  code that reads the tables into a `Database` and carries out the writes in a
  transaction.
