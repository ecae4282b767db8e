# progs

A program manager for Arch-style systems: it lists the installed packages,
the executables on the search path and in local directories, launchers,
systemd units and D-Bus services, classifies each program, and draws the
dependency relationships between packages.

- `src/` is the library, verified with Verus: the parsers of pacman,
  desktop, unit and manifest files, the program table, the classification
  rules, the dependency graphs (components, levels, layout) and the texts
  the interface shows. Laws that span several functions are public proof
  functions beside them.
- `app/` is the program around it: the window, the directory walks, the
  commands it runs and the scan cache.
- `tests/` runs the library on concrete values.
