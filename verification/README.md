# apply_patch_mcp

An MCP tool that edits files with patches in the `*** Begin Patch` format,
with tolerant matching of the lines to change and partial success: every
file operation that fails is reported, and the others still run.

The library under `src/` is verified with Verus:

- `parser`: the patch grammar (`grammar`, as spec functions) and the parser
  (`parse`), which returns exactly what the grammar describes.
- `path_expansion`: `~`, `$NAME`, `${NAME}` and `%NAME%` in patch paths,
  over a snapshot of the environment.
- `seek_sequence`: the tiered search for the lines of a chunk (exact, then
  ever more tolerant), and `nearest`, the closest fragment shown when a
  search fails.
- `content`: planning the chunks of an update, directly or reconciling
  (recognizing chunks that are already applied), and rendering the new and
  the reconstructed "before" contents of a file.
- `patch`: the summary of a run, the session that decides which file
  operation comes next, and `apply_patch_text`, which hands each operation
  to a `Performer` (a caller-supplied function that keeps the list of the
  operations handed to it; exactly the session's operations are) and
  `command::PatchRunner::apply`, which runs the same session with
  reconciling planning.
- `command`, `config`, `locator`, `server`: the tool's request, settings,
  executable lookup and replies.

`app/` holds the program around it: the command line, the settings file,
the file system operations and the MCP server.
