# bterm

The core of a terminal for web pages, written in Rust and verified with Verus:
a shell language with structured-value pipes, its evaluation, a line editor, a
table renderer and a tmux-like multiplexer.

- `src/` is the verified library. Every function states what it returns or
  changes, and Verus proves it.
  - `lex`, `parse`, `ast`, `spelling`, `diagnostics`: the language of a line.
  - `value`, `float`, `expr`, `callable`, `signature`: values, closures,
    selectors, and the binding of arguments.
  - `registry`, `builtins`, `eval`, `pipeline`, `chan`, `stream`, `redirect`,
    `execute`, `pane_run`, `abort`, `tasks`: commands and the runs of lines.
  - `render`, `progress`, `outbuf`, `sink`, `width`, `text`: what a terminal
    shows.
  - `editor`, `mux`, `engine`, `protocol`: panes and what happens in them.
  - `script`, `host`, `convert`: the commands, functions and values of a page.
  - `ask`: what the library cannot compute itself — floating point, JSON, the
    services of the host — it asks of the program around it, which answers and
    runs the computation again.
- `app/` is the program around it: a native REPL, and the handle that a web page
  holds.
- `tests/` run the library.
