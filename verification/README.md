# pyforge

The verified core of PyForge, a manager for local Python projects: an index
of tracked projects, project detection and directory scans, dependency
reading and aggregation, message catalogues in Chinese and English with
external language packs, and the logic behind the web dashboard's API.

- `src/` is the library. Every function in it is verified by Verus against
  its `requires`/`ensures` contract; the `law_*` and `lemma_iso8601_round_trip`
  proof functions state properties that span several functions.
- `app/` is the `pyforge` program around the library: command-line parsing,
  reading and writing files, running `uv` and `git`, downloads and the web
  server.
- `tests/` runs the library on concrete values.

The only calls into outside crates that the library makes go through
`deps::parse_toml` (the `toml` crate) and the `std` wrappers marked
`#[verifier::external_body]`; their contracts are trusted, not proved.
