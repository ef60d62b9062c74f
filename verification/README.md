# weflow

The service layer of WeFlow, a tool that reads a local WeChat database through
the WCDB native library and answers with JSON: sessions, messages, contacts,
group statistics, exports, image keys and backups.

`src/` is the library, verified with Verus. It holds the decisions and the
data handling of the services:

- `calendar`: days since 1970-01-01 and the second bounds of a year;
- `text`, `base64`, `normalize`: text helpers, base64 encoding, and the
  quoting of long `server_id` integers in the native library's JSON text;
- `json`: a JSON value type with a mathematical model and its text form;
- `sessions`, `export`: session ids, group-chat filters, paged message export
  with a stable sort by creation time and group nicknames;
- `paths`, `process`: where the database and the native library are looked
  for, and how a WeChat process id is read from `pgrep` or `tasklist` output;
- `wcdb`: the state of the native handle and how its answers are read;
- `services`, `answers`, `images`: the service hub, its configuration, and the
  JSON answers of every operation;
- `error`: the error type.

`app/` is ordinary Rust around the library: it loads the native library, reads
and writes files, runs processes, downloads images, and converts between the
library's JSON values and `serde_json`.

`tests/` exercises the library on concrete values.
