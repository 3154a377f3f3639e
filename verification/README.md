# herdr-branch-cleanup

A Herdr plugin that returns panes to the default branch once their branch has
been merged or deleted on GitHub, but only when every safety gate passes.

## Layout

- `src/` is the verified library. `policy` holds the decision and its laws;
  `gitio`, `herdrio` and `procio` build the commands that are run and read
  their output; `sweep` composes one sweep and the status file's content;
  `board` renders the status board; `cli` reads the configuration; `daemon`
  decides what the poller's lifecycle commands do; `text` and `json` hold the
  string and JSON primitives the rest is proved against.
- `app/` is the executable: it spawns processes, sleeps, and reads and writes
  the files of the state directory.
- `tests/` runs the library on concrete inputs, with scripted command runners.
