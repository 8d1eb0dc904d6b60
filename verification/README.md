# mux

`mux` scaffolds and manages C and C++ projects built with CMake presets
(`init`, `build`, `run`, `test`, `clean`, `add`, `remove`).

- `src/` is the verified library: build profiles and preset names, project
  layout checks, dependency naming, the `CMakeLists.txt` blocks that wire a
  vendored dependency and their removal, the `mux.lock` format, the new-project
  templates, and the plan of steps behind each command. Contracts and laws
  are proved with Verus, among them "`mux remove` undoes `mux add`" and "the
  lock file reads back as written"; the latter holds for entries whose columns
  hold no tab, carriage return or line feed and whose name does not start with
  `#` (such a line reads as a comment).
- `app/` is the command-line program: argument parsing, the file system and
  child processes (`cmake`, `ctest`, `git`).
- `tests/` runs the library on concrete inputs.
