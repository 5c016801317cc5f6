# starpls

The core of a language server for Starlark, the configuration language of Bazel, as
a library whose behaviour is stated in contracts and proved by Verus.

- `src/` is the library: lowering of parsed files, scopes and name resolution, the
  tables of what is built in, the binding of calls, control flow, the loading of
  files across repositories, the state of the server and of its documents, and the
  conversions between texts and the positions of an editor.
- `tests/` runs the library on real source text.
- `app/` is the program around it: the command line, Bazel as a process, the file
  system, the parser, and the connection to an editor.

The library keeps files by number and paths as text. What only the outside can say
(the contents of a directory, the answer of Bazel, whether a file exists) is handed
to it as a value, and what it decides comes back as a value: a list of actions, a
step to take, or an error.

`Cargo.toml` pins `get-size2` because the `ruff_*` crates of this line build with that
version; nothing here calls it.
