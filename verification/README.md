# lsp_skill

A manager for BSL Language Server instances (1C:Enterprise 8 code), with an
HTTP API, two MCP servers (diagnostics and navigation) and a command-line
client.

The library under `src/` is verified with Verus: every public function states
what it returns or changes, and the laws of the library are proof functions
named `law_*`.

- `json`, `json_text`, `text`, `assoc` — JSON documents with sorted objects,
  text helpers, string-keyed lists.
- `toon` — the compact TOON rendering of LSP answers.
- `lsp`, `requests` — JSON-RPC framing, message classification and the
  parameters sent to the language server.
- `session` — the running state of a project: status, indexing progress,
  published diagnostics, opened documents.
- `project`, `models`, `config`, `error`, `events` — checking project input,
  the records of the service, settings, errors and events.
- `mcp` — tool routing and answers of the MCP servers.
- `logging`, `watcher`, `browse`, `paths`, `runtime`, `java`, `cli`,
  `service`, `uri`, `ui` — log files, file watching, directory listing, file
  layout, the runtime record, the Java check, the client's helpers, service
  files, document URIs and what the web page shows.

`app/` is the program around it: storage in SQLite, the child processes, file
watching, the HTTP and MCP servers and the command line. Installed as
`lsp-skill-server` it runs the server; as `lsp-skill` it is the client.
