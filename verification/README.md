# ailly

Ailly keeps LLM sessions, evaluation suites and workflows as plain files, and
scores conversations against assertions. This crate is its core, written in
Verus: every function in `src/` carries a contract that Verus proves.

## Layout

- `src/` — the verified library.
  - `conversation`, `assertions`, `eval`, `report`, `calibration`: the
    conversation model, the assertion checks, running a suite over
    conversations, and the single-run and two-run reports.
  - `workflow`, `template`, `template_value`: workflow definitions and state,
    the step planner, and `{{placeholder}}` substitution.
  - `skills`, `knowledge`, `namespace`, `enrichment`, `project`: skill files,
    the knowledge index, skill enrichment, and the project listings.
  - `bash`, `fs_tools`, `fs_errors`, `range`, `tools`, `tool_definitions`,
    `permissions`, `clarify`, `web`, `web_search`, `web_fetch`, `web_config`,
    `script_runner`: the tools, their argument handling, their results and
    errors, and how calls are classified and permitted.
  - `text`: string and sequence helpers with their specifications.
- `tests/` — tests of the library.
- `app/` — the command line and everything that touches files, processes,
  the network or the clock; it hands the library plain values.

Calls into outside crates (`regex`, `globset`, `shlex`, `serde_json`,
`serde_json_path`, `std::path`) sit behind small trusted wrappers, each with a
doc comment saying what its contract claims.
