# artifex_mcp_server

An MCP server for the Artifex engine, with its logic verified by Verus.

- `src/` is the verified library:
  - `cli`: the command-line settings (configuration path, transport).
  - `service`: tool requests and results, prompt texts, instructions and
    upgrade progress messages.
  - `source`: the `[patch]` section named by the source of a package.
  - `overrider`: grouping the direct dependencies of a workspace by section,
    and the text that overrides one of them with local sources.
  - `tasks`: the command line of the development tasks.
  - `text`: character-level helpers and their specifications.
- `app/` runs the server (clap, rmcp, tokio, axum) and the development tasks
  (cargo metadata, file writes) around the library.
- `tests/` exercises the library on concrete values.
