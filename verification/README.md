# msi

A library for reading and writing Windows Installer (MSI) databases, with
its logic verified by Verus.

An MSI file is a compound file holding streams. This library works on the
contents of those streams: the string pool, the tables and their columns,
the summary information property set, the names under which streams are
stored, and the queries (select, join, insert, update, delete) that read
and change tables. Each of these is a function from bytes and values to
bytes and values, stated with `requires` / `ensures` contracts over
mathematical models (`Seq`, `Map`, `int`) and proved by Verus.

Layout:

- `src/` — the verified library, one module per part of the format:
  `bytes` (little-endian fields), `codepage`, `category`, `column`,
  `streamname`, `stringpool`, `value`, `table`, `expr`, `query`,
  `propset`, `summary`, `time`, `timestamp`, `language` and `package`
  (the database as a whole: opening it from its streams, creating tables,
  running queries, and what must be written back).
- `tests/` — tests of the library.
- `app/` — the `Package` type over a compound file (through the `cfb`
  crate), which reads and writes the streams and hands their contents to
  `msi::package::Database`.

Laws that relate several functions are public proof functions beside the
functions they speak of: reading back string pools, property sets, table
rows and inserted rows as written; the order of keys in a table; the
folding of expressions; and reopening a database's summary information
and string pool.
