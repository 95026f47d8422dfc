# unitctl

A small tool for systemd-style unit files, with its logic verified by Verus.

- `src/` — the verified library:
  - `text.rs`: whitespace trimming, prefixes, padding, decimal numbers;
  - `paths.rs`: Unix path joining, file names and extensions;
  - `unit_file.rs`: the INI-like unit file parser and its model;
  - `order.rs`: the lexicographic order of names;
  - `systemd_modes.rs`: unit search paths by privilege level;
  - `edit.rs`: `SourcePath` lookup, drop-in locations, editor arguments;
  - `list.rs`: selecting, ordering, rendering and paging the unit listing.
- `app/` — the command-line front end (clap, walkdir, serde_json, processes).
- `tests/` — tests of the library on concrete values.
