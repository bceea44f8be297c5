# codecks_mcp

A Model Context Protocol (MCP) server for the Codecks API, speaking newline-delimited
JSON-RPC over standard input and output. The protocol logic is a library verified with
Verus; the executable around it performs the I/O.

## Layout

- `src/` — the verified library.
  - `error.rs`: application errors with stable codes and credential-safe messages.
  - `json.rs`: JSON documents, their mathematical model, member lookup, objects built key by
    key; JSON text is decoded and written by `serde_json`.
  - `domain.rs`, `project_resolver.rs`: projects, and resolution by UUID, exact name, or the
    sole project.
  - `config.rs`: loading and validating the `CODECKS_*` settings; secrets that never print.
  - `codecks_api.rs`: credential headers, HTTP status and failure mapping, project page
    queries, reading normalized pages, and page-by-page enumeration.
  - `mcp.rs`: JSON-RPC validation, discovery, legacy initialization, tool discovery, tool
    calls and their results.
  - `transport.rs`: bounded framing of input bytes (with the law that a whole input yields
    its lines in order), decoding and deciding each frame, and the bookkeeping of concurrent
    tool calls (cancellation, replacement, the in-flight limit).
- `app/` — the executable: reading the environment, the HTTP exchange, the stdin/stdout
  threads and the async event loop. It hands the library raw bytes (input frames, response
  bodies) and performs what the library decides; decoding JSON, framing, dispatch and every
  protocol answer are the library's.
- `tests/` — tests of the library's public behaviour.

## Configuration

| Variable | Required | Default |
| --- | --- | --- |
| `CODECKS_ACCOUNT` | yes | - |
| `CODECKS_TOKEN` | yes | - |
| `CODECKS_TIMEOUT_SECONDS` | no | `30` |
| `CODECKS_LOG_LEVEL` | no | `info` |
