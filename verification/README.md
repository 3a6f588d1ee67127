# shararam_profiler

A low-overhead event recorder for a Flash player, with the logic verified by
Verus.

* `src/` is the library. Every function that returns or changes something has
  a contract, and public proof functions whose names begin with `law_` state
  what holds over several calls: memory stays bounded, no event is lost without
  being counted, drains are JSON where the arguments of the events are, what
  the library attaches itself is JSON where the embedder writes finite numbers
  as JSON does, payloads are cut off close to the limit and closed properly,
  remembered handler answers are what a lookup would give.
* `tests/` runs the library on concrete values.
* `app/` holds what surrounds the library in a player: clocks, the instance of
  each thread, floating-point arithmetic, conversions from the types of other
  crates, the browser interface and the global allocator.

Times are binary64 milliseconds and coordinates are binary32 pixels. The
library takes times as bit patterns and coordinates as ranks, which order as
the numbers do; whatever is computed with them comes from functions that the
embedder passes.
