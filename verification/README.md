# casefile

A verified library for Casefile planning roots: scanning a root into classified,
revisioned entries; parsing and rendering tickets, epics, boards, strategies and
progress logs; deriving the read model (records, relationships, boards); previewing
and applying one-path changes against the revisions they were previewed at; and the
decisions of the HTTP and terminal workbenches.

- `src/` is the library, written in Verus: every function has a contract, and the
  properties that span functions are stated as public proof functions (`law_*`).
  Calls into outside crates (TOML and YAML parsing, regular expressions, RFC 3339
  time, SHA-256, Markdown) go through small trusted wrappers whose contracts name
  what the call returns.
- `app/` is the `casefile` command around it: reading the root from disk, Git diffs,
  atomic writes, JSON, the tiny_http server with its SQLite index, and the ratatui
  workbench.
- `tests/` exercises the library on concrete roots.
