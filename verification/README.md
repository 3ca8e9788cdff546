# near_store

A key-value store of columns on top of a RocksDB database.

- `src/` is the library, verified with Verus. It decides with what the database is opened, which
  reads and writes carry out a transaction, and what is reported of the store; it does not talk to
  the database itself.
  - `column`, `handles`: the columns, the names of their column families, and which of them a
    database instance can access.
  - `options`, `open`: the settings of the database and of its column families.
  - `iterate`, `write`: ranges of keys, and transactions.
  - `latency`, `perf`: what is measured of reads.
  - `statistics`, `written`, `report`: the statistics of the store, how the database writes its
    own, and how all of them are gathered.
  - `text`, `number`, `error`: what the others need.
- `app/` is the store itself: it opens the database and carries out what the library plans.
- `tests/` are the tests of the library.
