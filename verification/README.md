# windbg-mcp-rs

A WinDbg extension that exposes the debugging session as an MCP server, with
its logic verified by Verus.

## Layout

- `src/` — the verified library.
  - `text.rs`: the meaning of the string operations the logic relies on
    (trimming, lines, whitespace words, ASCII case, substring search,
    lexicographic order, decimal numbers) and verified versions of them.
  - `syntax.rs`: cleaning syntax blocks, joining user-mode and kernel-mode
    syntax, inferring the syntax section from documentation text.
  - `search.rs`: search terms, relevance scores and the ranking order.
  - `catalog.rs`: catalog entries, resource URIs, lookup by id and token,
    ranked search, the catalog index.
  - `resources.rs`: the guide, compact command cards and full pages.
  - `executor.rs`: execution states, errors, building a command from an
    entry, the scripted mock executor and the wait-for-break decision.
  - `server.rs`: tool names, search limits, syntax previews, resource reads.
  - `plugin_server.rs`: bind addresses, endpoint URLs, and the record of the
    in-process server (start / status / stop).
  - `extension.rs`: the `!mcp` command: parsing, help, doc and catalog
    texts, output escaping, status reports.
- `tests/` — tests of the library on concrete values.
- `app/` — the code around it: serde/thiserror copies of library types,
  catalog loading, the dispatcher thread, the rmcp server handler, and the
  Windows-only debugger engine, HTTP server and extension entry points.

The catalog data is a JSON array of entries; `app` reads it from the file
named by `WINDBG_MCP_CATALOG` (default `catalog.json`).
