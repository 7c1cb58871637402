# i3_wsnames

Keeps the names of i3 workspaces in line with a configuration.

- `src/` is the verified library (Verus):
  - `model.rs`: the configuration, the errors, the i3 tree as the logic
    reads it, and the per-output tables;
  - `workspace_tree.rs`: a name-ordered map from workspace names to
    workspaces;
  - `lexical.rs`: the order of strings and its laws;
  - `tree.rs`: the walk from an i3 tree to per-output workspace and window
    tables, and the reading of window class names;
  - `functions.rs`: the decisions on workspace and window events, the
    commands sent to i3, and the reading of i3's replies;
  - `outside.rs`: the outside types carried through and the
    regular-expression search, taken on trust.
- `app/main.rs` is the program: command line, configuration file, the i3
  connection, `xprop`, and the event loop.
- `tests/` holds the tests of the library.
