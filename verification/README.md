# ghcheck

A single command that shows the open pull requests of your personal GitHub repositories
with their CI status, and the post-merge CI failures on their default branches.

- `src/` is the library, verified with Verus: the data model and CI verdicts
  (`model`), the terminal encoder and string operations (`text`), the ordering of rows
  (`order`), what is listed and how each cell reads (`render`), the `gh` request
  arguments, page-by-page pagination decisions and `gh` output handling (`github`), and
  the rendering of a terminating error (`report`).
- `app/` is the program around it: argument parsing, the `gh` subprocesses, JSON
  decoding and encoding, and printing the table.
- `tests/` exercises the library on concrete values.
