# vigil

Keeps the system awake, for a given time or until interrupted.

- `src/` is the verified library: the timeout grammar (`duration`, with the
  laws in `duration_laws`), the command line (`cli`, laws in `cli_laws`), the
  helper-process decisions (`inhibit`), the main-loop decisions (`run`), the
  interruption flag (`sig`) and string helpers (`text`).
- `app/` is the program: argument collection, printing, signal handlers,
  spawning and killing the helper process, and the Windows console and
  execution-state calls.
