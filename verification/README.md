# lox

A command line for the Loxone Miniserver, with its logic verified by Verus.

- `src/` is the verified library:
  - `loxcc` expands the `sps0.LoxCC` file of a backup (an LZ4-style token
    stream) and finds it in the backup ZIP;
  - `client` lists the controls of the structure file and resolves names,
    `[Room]` qualifiers, aliases and UUIDs to controls;
  - `devices` and `xml` read the status document into the extension listing
    and the device health report;
  - `status`, `cli`, `scene` and `config` hold the decisions of the
    individual commands (log tail, update check, `lox if` operators, scene
    listing, paths);
  - `text`, `sort` and `archive` are the shared helpers and the ZIP reader.
- `app/` is the program around it: argument parsing, HTTP, files, printing.
- `tests/` exercises the library on concrete values.
