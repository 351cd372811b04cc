# jj-menu

A TUI menu launcher: entries come from YAML, TOML or JSON configuration files
found in the working directory, its ancestors and the per-user configuration
directory, and from the project files next to them (`package.json` scripts,
Makefile targets, Cargo and Gradle builds).

## Layout

- `src/` — the library, verified with Verus:
  - `config/` — the configuration model, where configuration files are looked
    for, and how decoded files are checked and merged;
  - `launchers/` — the entries a `package.json`, a Makefile, a `Cargo.toml`
    or a Gradle build contributes, and POSIX quoting;
  - `menu.rs` — the menu assembled from configuration and launchers;
  - `ui/` — navigation and search state, line editing and placeholder
    substitution, key bindings, the rows laid out on screen, and how each
    run is styled and written, with or without colour;
  - `cli.rs`, `exec.rs`, `parallel.rs`, `shell_init.rs` — what the program
    decides around the menu: reports, exit codes, the signals passed on to a
    parallel group, the shell wrapper snippets;
  - `text.rs`, `order.rs`, `paths.rs` — characters, ordering and paths.
- `app/` — the program: argument parsing, reading files, serde decoding,
  drawing on the terminal, running processes and handling signals.
- `tests/` — tests of the library.
