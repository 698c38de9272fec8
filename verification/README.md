# cargo_rail_action

The verified core of the Cargo-Rail GitHub Action runtime, written in Verus.

- `src/` is the library. Every function in it carries a `requires`/`ensures` contract that Verus
  proves. It holds plan validation and the plan selectors, the cache action's input and status
  contracts, cache recording and the workflow cache report, the release authorization decisions,
  release-record validation, installation of authenticated Cargo-Rail archives (checksum
  manifests, archive layout, receipts), runtime packaging, the GitHub control-file payloads, the
  choice and acquisition of comparison history, and the workflow audit.
  The `law_*` proof functions state properties that span several functions.
- `app/` is the command-line runtime around the library. It parses arguments, reads and writes
  files, runs Git, curl and Cargo-Rail, and hands the library plain values.
- `tests/` runs the library on concrete inputs.

Outside crates are called from `src/` only through the small trusted wrappers listed in each
module: `rscrypto` for SHA-256, `jsonschema` and `serde_json` for release-record schema checks,
and `semver` for version syntax.
