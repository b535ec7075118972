# overwrite_automator

A small desktop tool that copies files from a source folder to an output
folder, or removes them there, as a saved *operation* lists them.

- `src/` is the library, verified with Verus: the operation model
  (`operation.rs`), the operation file format read from bytes
  (`lines.rs`, `text.rs`), the hash that names saved files (`hash.rs`),
  and the laws of the format (`laws.rs`), chief among them that loading
  the file that saving writes gives the same operation back.
- `app/` is the program around it: the Slint window, file dialogs,
  notifications, and the file-system work of loading, saving and running
  an operation.
- `tests/` runs the library on concrete files.

An operation file is UTF-8 text: line 1 is the name (empty for none),
line 3 is `source | out`, lines 2, 4 and 5 are not read, and every later
line is an action `code | path`, where code 1 copies and code 2 removes.
