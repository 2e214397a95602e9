# agentool

Tools for AI agents — workspace files, local search, Markdown outlines, Git, long-lived
Markdown memory, human-in-the-loop prompts, todos and a task store — whose decisions are
proved correct with [Verus](https://github.com/verus-lang/verus).

## Layout

- `src/` — the verified library. Every function states what it returns in `ensures`
  over mathematical models (`Seq`, `Map`, spec functions), and Verus proves it.
  - `json` — a model of JSON values and the typed reading of tool parameters.
  - `text`, `path`, `sort`, `offsets` — strings as character sequences, lexical path
    handling and the workspace sandbox, stable sorting by keys, and the byte offsets of
    characters in UTF-8 text (memory block ranges are byte ranges).
  - `fs`, `find`, `md`, `git`, `interact`, `memory`, `todo`, `task` — the rules of each
    tool family: parameter checks and error codes, slicing and editing of file text,
    grep/glob selection, tables of contents and statistics, the memory file format and
    which block a read finds, todo and task updates.
  - Laws proved about them include: a written memory block reads back exactly
    (`memory::roundtrip::law_written_block_reads_back`,
    `memory::readback::law_read_after_write`), glob search keeps the smallest matches
    (`find::law_glob_keeps_smallest`), a whole-file read is the file
    (`fs::law_whole_read_is_identity`), removing a todo undoes adding it
    (`todo::law_remove_undoes_add`), every parsed memory block starts a `### ` line
    (`memory::shape::law_parsed_blocks_are_headed`), and a read finds the latest block of
    its pool (`memory::readback::law_canonical_is_latest`).
  - Calls into `regex`, `globset`, `serde_json` and `chrono` go through small trusted
    wrappers whose contracts say what those crates promise.
- `tests/` — tests of the library on concrete values.
- `app/` — the asynchronous `Tool` interface for hosts, with JSON Schemas, and the I/O
  around the library: the file system, `walkdir`, `git2`, SQLite through `rusqlite`, the
  clock and UUIDs.

Every tool answers `{ "success": true, "data": ... }`, or fails with a `ToolError`
carrying a stable `code` and a readable `message`.
