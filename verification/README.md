# dtach-rs

Runs one program under a pseudo-terminal, lets terminals attach to it and
detach from it, and keeps the program alive when no terminal is attached.

## Layout

- `src/` is the verified library:
  - `protocol`: the framed messages between clients and the master, with the
    proof that reading a frame gives back the message written into it;
  - `args`: the command line;
  - `output_filter`: the filter on the program's output, with the proof that
    cutting the output into reads changes nothing;
  - `session`: session descriptors, tokens and the registry of sessions;
  - `master`: the master's table of clients and its answers to client
    messages;
  - `launch`: the command line of a background master and its ready report;
  - `attach`: what an attached client does with keys and output;
  - `list`: which sessions are looked at, and the printed table;
  - `text`: text helpers, and the calls into std's string functions.
- `app/` is the program: terminals, sockets, files, the pseudo-terminal and
  threads, driven by the library's decisions.
- `tests/` runs the library on concrete values.
