# codex-tools-mcp

An MCP (Model Context Protocol) server over stdio, speaking JSON-RPC 2.0, that
offers three tools: `update_plan`, `ask_user` and `apply_patch`.

The library in `src/` holds every decision the server makes, each function
with a contract that Verus proves:

- `server`: what each line a client sends is answered with, from its text
  (`handle_text_line`, which parses it with `serde_json`) or its parsed value
  (`handle_line`),
  the order of the checks that refuse a malformed request, and the
  `apply_patch` call as a small state machine (`PatchJob`) that asks its
  driver to look at the disk and to run the patch.
- `guard`, `walk`: the `--restrict-to-workdir` check. Every path line of a
  patch is checked lexically (`..` is resolved on the text, before any
  look at the disk), then its normalized names are walked entry by entry on
  disk. The walk refuses a name that is not a plain name, asks only about
  entries strictly below the working directory, and refuses a path where an
  entry resolves, through a symbolic link, outside it (a final symbolic link
  may be deleted wherever it points). Since `..` is resolved lexically
  first, `link/../b.txt` is read as `b.txt` and never walks through `link`.
- `paths`: lexical normalization of relative paths.
- `replies`, `tools`: the messages the server writes and the tool schemas.
- `json`, `text`: the JSON values and the character-level helpers.

`app/` is the program around it: the command line (`--log-level`,
`--workdir`, `--restrict-to-workdir`, `--version`, `--help`), stdin and
stdout, the JSON printer, the file-system probes, and the run of
the patch itself.

The patch itself is run by `app/` with `codex_apply_patch::apply_patch`.
