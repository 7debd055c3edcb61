# ren_find

A batch renamer for paths read in `find` format. Given a pattern and a
replacement, each path's file name is rewritten and put back in its directory;
the result is shown as a unified diff of the path list, or carried out on the
filesystem. Paths can also be deleted.

Layout:

- `src/` — the verified library (Verus):
  - `cli.rs` — the `-n` argument, the choice of action and of color;
  - `paths.rs` — paths as text: file name, parent, join, the key of an input line;
  - `order.rs` — sorting paths longest first, stably (contents before their directory);
  - `replacer.rs` — the find/replace rule: flags, literal mode, the regex calls;
  - `path_map.rs` — the `IndexMap` from each path to its new path;
  - `edit.rs` — the new path of each path;
  - `writer.rs` — the diff preview and the list of filesystem operations;
  - `input.rs` — from input lines to sorted paths and their renames;
  - `error.rs` — the program's error.
- `app/` — the command-line program: argument parsing, standard input, the
  pager, and the filesystem work.
- `tests/` — tests of the library.
