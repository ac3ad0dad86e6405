# swww-daemon

The core of a wallpaper daemon for Wayland, written and proved in Verus.

The daemon puts a wallpaper on every output, runs the transitions and animated images that its
clients ask for, and answers those clients.

- `src/` is the library: the state of the daemon and every decision it takes, each with a contract.
  It does no input or output. Where something has to be done outside in the middle of an operation,
  the operation is a sequence of steps: each step says what is to be done and goes on once it is told
  what came of that.
- `src/daemon/laws.rs` and `src/daemon/laws/` state what holds across operations, for example that
  removing an output undoes adding it, that every animation gets exactly one turn in a drawing pass,
  or that such a pass always comes to an end. Laws about one module alone are in that module.
- `app/` is the program around the library: arguments, signals, sockets, polling and logging. The
  Wayland connection, the drawing and the wire format spoken with clients are linked in behind the
  trait in `app/backend.rs`.
- `tests/` runs the library on concrete values.

The one thing that is believed rather than proved is how the `log` crate orders its levels
(`passes` in `src/logger.rs`).
