# aka

`aka` ("also known as") expands command-line aliases for zsh: a YAML file
names aliases and lookup tables, and the shell asks `aka query` to expand a
line as it is typed. A daemon keeps the configuration loaded so that the
question is answered quickly; without it the command line tool loads the
file itself.

## Layout

- `src/` — the verified library (Verus):
  - `aka.rs` — the replacement engine: word splitting, `!`/`!binary`/`sudo`
    handling, alias and lookup expansion, use counts;
  - `cfg/` — aliases (positional and variadic parameters, variable
    interpolation), the configuration document and its validation;
  - `display.rs` — the listings of `aka ls` and `aka freq`;
  - `store.rs` — configuration paths, fingerprints and the use-count cache;
  - `health.rs` — the health check that decides between daemon and direct
    mode, and the daemon's status line;
  - `protocol.rs`, `daemon_client.rs` — the daemon protocol and the client's
    retry and error decisions;
  - `error.rs`, `shell.rs`, `timing.rs`, `name_map.rs`, `text.rs`,
    `patterns.rs`, `system.rs` — errors, the shell script, timing, an
    insertion-ordered map, text helpers, regular expressions, and the traits
    through which the library reaches processes, files and sockets.
- `tests/` — tests of the library.
- `app/` — the `aka` command line and, run as `aka-daemon`, the daemon:
  argument parsing, files, sockets, YAML and JSON, logging and timing output.
