# jsoncdc

The formatting and bookkeeping of a Postgres logical decoding plugin that
writes each transaction as JSON records, one per line, proved with Verus.

- `src/` — the verified library: JSON string escaping (`json`), decimal and
  literal output (`text`), rows and stale TOAST columns (`tuple`), change
  records (`change`), schema records (`schema`), message records
  (`message`), the decoder's state and the transaction records (`decoder`),
  printed names (`name`), and the proofs that every record is one line
  (`lines`), given that the row texts and the commit time the server
  supplies hold no line feed.
- `app/` — the plugin's callbacks against the server's C interface: reading
  relations, tuples and catalogs into the library's values and writing the
  records into the server's output buffer.
- `tests/` — the library on concrete values.
