# upload-server

A small service that stores files and logs, and its command line client `simple`.

- `src/` is the library, verified with Verus: what a request to write or to find logs may hold
  and how it is answered, the SQL behind it, timestamps and dates, namespaces, and what the
  client asks of the server and does with the answers.
- `app/` is the programs around it: the HTTP interface, the SQLite database, and the client's
  connection and files.
- `tests/` runs the library.

The library calls `serde_json` (JSON values), `reqwest` (addresses) and `zip` (archives); what it
takes as known of them stands beside the calls, in `json.rs`, `url.rs` and `archive.rs`. From
std, `text.rs` takes `String::push` and the quoted form of a string, and `archive.rs` takes
`io::copy` for the bytes of an entry.
