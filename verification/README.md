# hm

The `hm` command-line tool for running CI pipelines locally and in the
cloud, with its decision logic written in Verus and proved against its
contracts.

- `src/` is the verified library: relative paths and directory policy,
  the dev-session planner (dependency levels, container naming, port
  listings), the log multiplexer, the build-event renderers, the VM
  cache state machine and image registry eviction, `hm init` and
  `hm run` decisions, and the small text and map utilities they share.
  Calls into outside crates (hashing, hex, colours, randomness, the
  home directory, program lookup, file tests) go through a few trusted
  wrappers, each documented where it stands.
- `tests/` runs the library on concrete values.
- `app/` is the executable around it: argument parsing with clap, the
  Docker client, the SQLite registry, file I/O and the async runtime.
