# ferrocache

A small Redis-compatible in-memory cache. The library under `src/` is
verified with Verus; the server program under `app/` wraps it with Tokio
networking, the append-only file and the command line.

Library modules:

- `protocol`: RESP2 frames, their encoder (`encoder`), a reader that works on
  byte buffers and says when it needs more bytes (`parser`), decimal numbers
  (`number`), and the proofs that a frame reads back as it was written
  (`roundtrip`) and that reading a stream piece by piece gives what reading it
  whole gives (`streaming`).
- `storage`: the key-value store with strings, lists and expiration; `table`
  holds the entries by key, `laws` states what the operations promise together.
- `command`: parsing frames into commands, running them, and the frames that
  the append-only file records; `command::laws` states the answers to commands.
- `session`: what the server does with each frame a client sends: answer
  an error, run a command, or record it in the append-only file and run it,
  and what it answers once that append has succeeded or failed.
- `persistence::aof`: replaying the content of an append-only file;
  `persistence::laws` proves that each recorded command reads back as itself.
- `clock` and `text`: the calls into the system clock and into std's UTF-8
  conversion that the library trusts, and the verified code around them.

Times are signed nanoseconds since the Unix epoch: a clock set before the
epoch reads as a negative time. Each operation that depends on the
time comes in two forms: one that reads the clock (`get`), and one that takes
the time as an argument and states its result exactly (`get_at`).
