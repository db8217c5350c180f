# margay

Audit (and fix) the permission bits of the files in a project tree:

- shell scripts missing the user-execute bit,
- sensitive files (`.env`, `*.key`, `*.pem`, `id_rsa`, ...) open to group or others,
- source files (`*.rs`, `*.py`, `*.md`, ...) marked executable.

Layout:

- `src/` is the verified library. `checks/` decides which files carry an
  issue and which mode repairs each one; `paths` reads file names and
  extensions from path bytes; `fix` lists the mode changes that repair the
  issues and proves that they do; `report` builds the styled text report;
  `walker` orders the walked paths; `text` formats numbers and converts text.
- `app/` is the `margay` program: command line, directory walk, reading and
  setting modes, JSON output and terminal colours.
- `tests/` exercises the library on concrete trees and paths.
