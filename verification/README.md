# paniolo

paniolo wrangles the target machines an agent works on: a lab file names
the control hosts and, for each target, the channels that reach it (serial
consoles, netboot, power hooks, HDMI capture, HID injection, adb). The CLI
edits that file, and runs each command on the host its channel lives on.

## Layout

- `src/` — the library, verified with Verus: the lab model and its
  validation, the lab editor (deciding each edit on the typed lab and
  making it on the file's `toml_edit` document: each edit's effect on the
  document's sections, entries, string values and serial tables is stated,
  and every other part of the document, comments included, is left to
  `toml_edit` to keep), channel resolution and remote dispatch, SSH
  argument and quoting rules, the error classification and exit codes, the
  doctor's checks, netboot and link-mode planning, the UF2 flashing protocol
  and session, the CH9329 HID frames, discovery rendering, setup planning,
  skills, and the small parsers the CLI relies on. Public proof functions
  named `law_*` state the properties that hold across calls.
- `tests/` — tests of the library on concrete values.
- `app/` — the command line: argument parsing, reading and writing the
  lab file, processes, SSH, the daemons'
  HTTP endpoints and the network interface commands the library plans.
