# CipherClip

A clipboard history that devices with the same key share with each other.

- `src/` is the library, verified with Verus: the history store and how events
  of other devices are merged into it (`db`, `model`, `laws`), the exchange of
  events and files (`sync`, `wire`, `download`), finding other devices
  (`discovery`, `network`), keys and sealing (`crypto`), what is kept of the
  clipboard and shown of it (`clipboard`, `history`), pictures (`image_util`,
  `dib`), attachments, settings and the master password (`storage`, `settings`,
  `password`, `commands`).
- `app/` is the program around it: the SQLite file, the keyring, sockets, the
  system clipboard and the window.
- `tests/` runs the library; `tests/against_sqlite.rs` holds the store against
  the SQL statements that it stands for.

`model` says what the store holds and what each operation makes of it; the
methods of `db::Database` are proved to do just that, and `laws` states what
follows for whole histories. What the library takes from other crates is claimed
in the doc comments of the functions that call them.
