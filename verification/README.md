# proc_monitor

A process monitor: when a watched process starts, it closes (or starts) the
programs that its configuration names; the actions run once per start.

- `src/` is the verified library: the command-line grammar (`cli`), the
  configuration model and the choice of configuration file (`config`), the
  log-line format and routing (`logger`), the process-table query and the
  plan of actions (`process`), and the edge-triggered detection state with its
  laws (`monitor`).
- `app/` is the program around it: reading the command line, the TOML file,
  the log file, spawning `taskkill` / `cmd start`, and the polling loop.
- `tests/` runs the library on concrete values.
