# loadsmith_plugins

The decisions of the Loadsmith plugin set, verified with Verus:

| Module | Plugin |
|---|---|
| `postgres::source` | Postgres source: server-side cursor, optional incremental load |
| `postgres::destination` | Postgres destination: `atomic` and `staged_merge` |
| `jsonl` | newline-delimited JSON destination |
| `parquet`, `parquet_run` | single-file or chunked Parquet destination, and the laws of a whole run |
| `null` | destination that discards rows |
| `local_copy` | sink that copies staged files into a directory |
| `file_provider` | config provider that reads a file |

`postgres::conn`, `postgres::copy`, `postgres::types` and the modules they build on (`array`,
`bytea`, `cells`, `hstore`, `sql`, `temporal`) are shared by the Postgres source and destination.
`text`, `number`, `float_text`, `path` and `json` are common to all.

The library holds no I/O. Connections, files, Arrow arrays and the plugin protocol are in `app/`,
which asks the library what to do, does it, and hands back what came of it. Calls into `chrono`,
`serde_json` and `bytesize` that only compute are made in the library, behind small functions whose
contracts say what is relied on.
