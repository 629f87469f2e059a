# cargo with

`cargo with <tool> -- <run|test|bench|build> [cargo args] [-- <args>]` builds an
artifact with cargo and runs it through a tool such as `gdb`, `strace` or
`valgrind`. `{bin}` and `{args}` in the tool's command stand for the
artifact's path and the trailing arguments; when they are missing, both are
appended.

Layout:

- `src/` is the verified library (Verus): the cargo command and its
  arguments (`cargo.rs`), the choice of the artifact among those cargo
  reports (`select_buildopt`), the tool's command and its placeholders
  (`with_command.rs`), the decisions of a run (`run.rs`), the error
  messages (`error.rs`) and the text operations they rest on (`text.rs`).
- `app/` is the program around it: command line parsing with clap, running
  cargo, reading its JSON messages with serde, and starting the tool.
- `tests/` runs the library on concrete values.
