# wasmtime_run

The decisions behind running a WebAssembly module from the command line: how
options are read, what is done in which order, what is refused, and how a run
ends. The decisions are verified with Verus; the work itself is done by the
application around them.

A run is a list of outside work. `RunCommand::execute` takes the work that was
done and what came of it, and gives the work to do next or the end of the run.

- `src/` is the verified library.
  - `parse`, `span`, `number`, `text`: how the values of options are read.
  - `command`: the command and what its options say.
  - `plan`: the outside work and what can come of it.
  - `module`, `format`: what becomes of the bytes of a file.
  - `wasi`, `limits`, `invoke`, `coredump`: what a program gets, how much of
    it, how it is called, and what is dumped when it traps.
  - `execute`: a run as a whole.
  - `run`, `origin`, `laws`, `sockets`, `ends`, `length`: what holds of every run.
- `app/` is the program: it reads the command line and does the outside work.
- `tests/` runs the library on concrete commands and made-up outcomes.
