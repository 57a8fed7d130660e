# hindsight

The verified core of the Hindsight work-log tooling, written in Verus.

`src/` is the library; every function in it carries a contract that Verus
proves:

- `worklog`: the Work Log description prompts and the context budget that
  keeps the Work Item text and activities first and samples OCR evidence.
- `ocr_section`: splitting, scoring and evenly sampling OCR chunks so that the
  OCR section fits its share of the budget.
- `evidence`: the OCR evidence entries and the de-duplicated activity lines of
  a time span.
- `jira`: reading Work Items out of a Jira MCP `tools/call` answer, as JSON or
  as an event stream.
- `compaction`: the summary prompt, the context check, the summary ledger's
  transitions and the step function of a background compaction pass.
- `off_pc`: the recordable gaps in a device's activity and the checks on a
  manual off-PC record.
- `offline`: the `--seed-resources` argument and the seeding decisions that
  never replace an existing file.
- `clock`, `text`: instants and character-sequence helpers.

Calls into `chrono`, `serde_json` and a few `char`/`String` functions of std
sit behind small trusted wrappers whose doc comments say what is assumed.

`app/` is the plain Rust around the library: SQLite queries, the HTTP exchange
with the MCP server, file copying, the local clock and the scheduling loop. It
hands plain values to the library and acts on what the library decides.

`tests/` holds the tests, run against the compiled library.
