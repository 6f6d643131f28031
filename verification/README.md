# deltalens

Inspect, diff, trace and audit Delta Lake tables from their transaction log
(`_delta_log/*.json`), with the analyses written in Verus and proved against
their contracts.

## Layout

- `src/` — the verified library.
  - `text.rs`: character-level text handling (trimming, splitting, searching,
    decimal notation, joining).
  - `engine/`: the log model and its analyses.
    - `parser/commit.rs`: framing of commit files into action lines.
    - `reader.rs`: selection of commit files by version range, latest commits.
    - `model/`: actions, schemas, lineage entries, statistics.
    - `analyzer/`: table health, version diffs, writer lineage and filters,
      schema evolution, partition keys.
    - `storage.rs`: table URIs and S3 object keys.
    - `time.rs`, `json.rs`, `metrics.rs`: dates, JSON decoding and command
      timing, through the `chrono`, `serde_json` and `std` calls they need.
  - `cli/`: the command line and the outcome of each command on a log.
  - `render/`: the text of the terminal reports.
- `app/` — the `deltalens` program: argument parsing (clap), reading the log
  from disk (rayon), JSON decoding of actions (serde), S3 access
  (object_store), terminal output (comfy-table, colored), configuration and
  local telemetry, and the floating-point skew score.
- `tests/` — tests of the library on concrete logs.
