# tmuxido

Quickly find git projects and open them as tmux sessions.

The decisions of the tool are written in Verus and proved against their
specifications; the command around them performs the I/O.

- `src/` — the verified library:
  - `text`, `paths`, `clock`: characters, paths and time, with the few calls
    into `std`, `dirs` and `shellexpand` stated as trusted contracts;
  - `cache`, `projects`: the project cache, its incremental update after
    directory changes, and when the cache or a fresh scan is used;
  - `session`: session names and the exact tmux commands that open a session;
  - `config`, `config_wizard`, `summary`: defaults, the first-run choice
    between the setup questions and the defaults, the questions (layouts
    included) as a state machine, and the summary shown once the
    configuration is saved;
  - `deps`: the required tools, package managers and install plans;
  - `shortcut`, `shortcut_wizard`: key combos in each desktop's notation,
    conflict checks, the files and `gsettings` calls written, and the setup
    as a state machine;
  - `self_update`, `release`, `update_check`: version comparison, release
    lookup and the periodic update notice.
- `tests/` — tests of the library on concrete values.
- `app/` — the `tmuxido` command: argument handling, terminal output, files,
  the directory walk and the programs it runs.
