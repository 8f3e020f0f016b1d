# Flux

A live terminal timeline of what changes in a set of folders: files, Git
repositories, Beads issues, and how far the observation itself can be trusted.

- `src/` is the library: what the timeline keeps and shows, what native events
  come to, what happened in a repository or an issue store, which folders are
  observed, and what stands on the screen. It is written in Verus; every function
  has a contract, and `src/laws.rs` and the ends of the other modules state what
  holds of the whole.
- `app/` is the program around it: native watchers, the `git` and `dolt`
  commands, and the terminal.
- `tests/` runs the library on concrete values.

Times are nanoseconds since the observation began. Paths are sequences of
components, so that a path is below another where its components begin with the
other's.
