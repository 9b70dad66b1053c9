# step_count

Counts the lines of code a developer added to a Git repository between two
revisions ("steps").  Two front ends share the library:

* the command-line counter (`app/main.rs`) lists the files an author changed
  with `git log`, keeps the added lines of each (`git diff`) that are neither
  blank nor `//` comments, saves them, moves the files selected by
  `config.json` aside and counts their lines;
* the desktop counter (`app/desktop.rs`) copies every changed file whose
  extension `config.json` lists (and whose name it does not exclude) and
  counts the lines of those copies.

`src/` is the verified library (Verus): line splitting and counting, diff
filtering, file selection with the `regex` crate, and the plans of what to
write, copy and move.  `app/` does the terminal, file system and Git work and
reads `config.json` with serde.  `tests/` exercises the library.
