# roger

A Matrix-native AI orchestrator. Roger lives in Matrix rooms and answers messages there: it routes
each room to a model profile, keeps per-room history and durable memory, compacts long
conversations, runs tools for the model, and streams answers into the room.

- `src/` is the library: stores, prompts, commands, tool dispatch, model chains, compaction and
  rendering, with contracts that Verus proves. It does no I/O: stores hold the texts of their
  files, and functions that stand before or after an I/O step take and give plain values.
- `app/` is the program around it: Matrix, HTTP, subprocesses, MCP connections, files and logging.
- `tests/` exercises the library with the outside crates linked.

What is trusted rather than proved stands behind wrappers whose doc comments name the outside
function: JSON (`src/json.rs`), Markdown rendering (`src/markdown.rs`), the local date
(`src/config.rs`), the clock (`src/scheduler.rs`), lossy UTF-8 decoding (`src/llm.rs`), and
`String::push` and `str::to_lowercase` (`src/text.rs`).

Configuration is read from `config/profiles.toml`, `config/backends.<HOST_ROLE>.toml` and the
environment. State lives under `ROGER_STATE_DIR`, by default `~/.roger`. `ROGER_CODING_CLI` names
the program of the agentic backends that are not `opencode`.
