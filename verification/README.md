# boenmind

The BoenMind backend's decision logic as a Verus-verified library, with a thin
command-line program around it.

## Layout

- `src/` — the verified library, checked by Verus. Public functions state
  their results in `ensures` (a few small helpers need none); `law_*` proof
  functions state properties that span calls.
  - `protocol/` — session events, identifiers, errors, policies and ports.
  - `governance`, `memory`, `roles`, `payload` — "remember" extraction, the
    memory file format and its injection into model requests, role injection.
  - `permission_store` — remembered plugin permissions, RFC 3339 parsing and
    the date arithmetic of their timestamps.
  - `pdf_omni/` — PDF parsing plans: engine and tier choice, the LlamaParse
    key budget and serial key rotation, MinerU limits, cascade buckets and
    canvas layout, Markdown statistics and cross-check counts, refine rules,
    the page count of a PDF.
  - `mcp/` — MCP server configuration, `mcpServers` files and their entries,
    discovery (first name wins),
    `${VAR}` expansion, qualified tool names, tool-call routing and the
    reconnect policy (exponential backoff and breaker).
  - `gates`, `hostcall` — which tool calls ask the user first, capability
    prompts, and the operations sandboxed extensions may call.
  - `git` — reading the output of the git commands behind the branch graph.
  - `auth`, `server`, `chat`, `tools`, `log_buffer`, `routes`, `bm_engine` —
    login and sessions, CORS and the access-token guard, chat titles,
    built-in tool arithmetic, the log ring, request shapes and their checks,
    thinking-level mapping, progress notes, the steward's silence watchdog,
    prompt outcomes and the routing of tool calls.
  - `text`, `utf8`, `hex`, `json`, `paths` — shared string, byte and path
    helpers (calls into `std` and outside crates sit behind small trusted
    wrappers whose contracts say what the callee documents).
- `tests/` — tests of the library on concrete values.
- `app/` — the program: file and network I/O, the PDF engines' HTTP clients,
  PDF and image manipulation, tracing, and the command line.
