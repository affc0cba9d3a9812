# gh_tui

A terminal UI for GitHub pull requests (`gh tui`), built around a verified
core.

- `src/` — the library, verified with Verus: the reducer (`State` × `Msg` →
  `State` × `Cmd`s), the vim-style key resolver, the REST/GraphQL response
  mappings, rate-limit and ETag decisions, and the renderers (markdown,
  unified and split diffs with inline review threads, syntax and word-level
  highlighting). `src/laws.rs` states the properties that span several
  calls. Calls into `chrono`, `similar`, `pulldown-cmark` and
  `tree-sitter-highlight` go through small trusted wrappers whose contracts
  are stated next to them.
- `app/` — the program around it: terminal, event loop, HTTP client and
  cache, `gh` subprocesses, drawing with ratatui.
- `tests/` — tests of the library on concrete values.
