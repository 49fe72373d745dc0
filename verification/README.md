# vortex_core

Verified pieces of a columnar array format and its tooling, written in Verus.

- `src/ipc_writer.rs`: framing of IPC messages (little-endian length word, body, zero padding to
  a 64-byte boundary), page and batch padding, and the stream position they keep aligned.
- `src/fbs_array.rs`: the `Version` enum value of the serialized array table.
- `src/temporal.rs`: temporal arrays (dates, times of day, timestamps) and the storage types they
  accept.
- `src/file_format.rs`: the file-format decisions offered to a query engine.
- `src/dispatcher.rs`: a dispatcher that runs no tasks.
- `src/tpch.rs`: benchmark reporting: measurement identifiers, the baseline-relative results
  table, query selection and row-count checks.
- `src/text.rs`: decimal rendering and string appends.
- `app/`: asynchronous stream writes and the printing of results (JSON, colored tables).

Not carried over: the generated flatbuffer table API of the serialized array (`Array`,
`ArrayStats`, their builders, argument structs and root functions). Its accessors are unsafe
reads of flatbuffer tables, and its statistics table refers to a scalar schema that is not part
of these sources; only the `Version` value and the offset marker types are here. The marker
types are empty structs, since the verifier does not accept enums without variants.
