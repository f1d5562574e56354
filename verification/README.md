# mnemosctl

`mnemosctl` is a command line client for the MNEMOS memory system. It searches,
creates and fetches memories, pulls those of another host into a local database,
and imports them from files.

The decisions of the program are a library, verified with Verus. What reads
files, the environment and the network, or writes to the database, is a thin
program around it.

## Layout

- `src/` is the library.
  - `config`: which service to talk to; `request`: what is sent to it and what its
    answers mean; `mock`: stand-ins for it.
  - `sync`: pulling the memories of a host; `import`: importing a file;
    `ledger`: why importing a file again repeats nothing; `progress`: reports.
  - `json`, `codec`, `fields`, `peers`: JSON values, their text, and what is read
    from them; `text`, `hash`: strings.
- `app/` is the program: arguments, HTTP, sqlite and files.
- `tests/` runs the library, with `serde_json` and with an sqlite database in
  memory.

JSON is read and written by `serde_json`. What the proofs rest on there stands in
`codec`, above the functions that call it.

## Behaviour

- The environment variables `MNEMOS_BASE` and `MNEMOS_API_KEY` take precedence over
  `~/.mnemos/config.toml`.
- `sync-from HOST` pulls memories in pages of 100 and stores them by identifier in
  `~/.mnemos/mnemosctl.db`. A second run inserts nothing if nothing changed.
- `import FILE` sends each row that the ledger does not know, by identifier or by
  the hash of its line. It stops at the first bad row; with `--skip-bad` it goes on.
- `--progress [N]` reports every N rows, every 100 if no number is given.
