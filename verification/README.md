# reconnect

A reconciliation library: it compares a left and a right table and reports the
rows whose keys or compared fields differ, side by side.

- `src/` is the verified library. `differ` picks the strategy (one database or
  two), `single_store` and `multi_store` hold the two strategies, `keys` compares
  `key__checksum` sets, `row` turns query rows into maps and keyed row sets,
  `store` holds connection parameters, SQL template values and the reading of
  query results, `text` the string helpers, and `datagen` the benchmark data
  generator's records, SQL and random differences.
- `app/` connects to Postgres, renders the SQL templates, runs the queries and
  the multi-store steps, reads a YAML configuration (serde, serde_yaml) to run a
  reconciliation, and writes the benchmark CSV files.
- `tests/` exercises the library on concrete values.
