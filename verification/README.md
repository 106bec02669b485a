# deltegic

A download manager with Python addons, whose core is verified with Verus.

- `src/` — the verified library: the download queue and its task records,
  cookie jars (Netscape and browser-export formats), the account store and
  its sealing of accounts, the scheduler and its cron expressions, the addon
  registry's records and the objects handed to addons, the decisions of a
  task run (plans, retries, file names, progress texts), the widget staging
  of addon windows, and the texts the main window shows. Calls into
  `chrono`, `uuid`, `url`, `regex`, `sha2`, `aes-gcm`, `hex`,
  `serde_json` and `dashmap` go through small trusted wrappers whose
  contracts say what those crates do.
- `tests/` — tests of the library on concrete values.
- `app/` — the program around it: the async queue service, HTTP downloads,
  the embedded Python runtime and its `nexdl` module, accounts on disk, the
  scheduler loop, and a command-line front end.
