# ccore

The core of a coding agent: nodes that speak over a message bus, the memories
they keep, and the loop in which a model thinks and calls tools.

- `src/` is the library. Its functions are verified: what each returns and
  changes is stated in its contract and proved by Verus. What is only relied on
  are the contracts of the calls into other crates.
  - `text`, `path`: texts and file paths, with the mathematical model that the
    contracts speak in.
  - `message`: topics and patterns, frames, sequence numbers, acknowledgements,
    parameters and services.
  - `node`: the nodes. Each takes a message and says what is to be sent or done.
  - `memory`: working, short-term, long-term and episodic memory, chunks and
    blocks of code, the map of a repository, and retrieval.
  - `persistence`, `performance`: data under keys, and the pool of buffers.
  - `outside`: what is taken from other crates, with what is relied on.
- `app/` is the running side: sockets, files, the terminal, and arithmetic on
  floating-point numbers. It hands plain values to the library and carries out
  what the library decides.
- `tests/` holds the tests.

Scores, heats and rewards are floating-point numbers on the running side. The
library holds them as integers that are ordered as the numbers are.
