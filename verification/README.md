# haj

A quiet front end for pacman on Arch Linux: a command line and a terminal
dashboard that install, remove, upgrade and search packages, build AUR
packages, read the Arch news and show the system's history and health.

## Layout

- `src/` is the library, written in Verus and proved: it reads pacman's
  output and log, the news feed and its index pages, package archive names,
  `.SRCINFO` and `pacman -Qi` listings; it sorts out install targets and
  package conflicts, builds the command lines that are run, and decides what
  every key of the dashboard does. Each public function states what it returns
  in its `ensures`; the `law_*` proof functions state properties that tie
  several functions together.
- `tests/` runs the library on concrete values.
- `app/` is the `haj` program around the library: argument parsing, the
  configuration file, the child processes, the network, the pacman databases
  (through libalpm) and the drawing of the dashboard.
