# pk

A command-line tool that keeps named aliases for programs in `~/.pk_alias`
(one `alias:path` line each) and runs or attaches tmux sessions named
`pk_<alias>` for them.

- `src/` is the verified library: the line format and every rewrite and
  lookup of the alias file (`alias`), the tmux session names, launch command
  and `tmux ls` parsing (`tmux`), the number prompt (`input`), the
  subcommands and the work they ask for (`commands`), text helpers with the
  semantics of `str::split_once` and `str::lines` (`text`), and the calls
  into `std::path` (`paths`).
- `app/main.rs` is the program: argument parsing, file and process I/O, and
  printing.
- `tests/` runs the library on concrete inputs.
