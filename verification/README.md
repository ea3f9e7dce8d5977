# binetic

A self-describing, spatially organised computation fabric for local AI
inference, as a verified library.

- `src/` — the library, verified with Verus: addresses and their geometry,
  bitsliced lanes, bloom filters, registers, compound registers and records,
  the register store, echo propagation, network registers, storage tiers,
  the fabric, the backends' decisions, the intent module's approval gate,
  trajectory and intent graph, and rotation outcomes. Every public function has an `ensures`
  stating its result; laws relating several functions are public proof
  functions.
- `tests/` — tests of the library.
- `app/` — the command-line program and what cannot be verified: I/O, the
  clock, floating-point estimates and scheduling, the llama.cpp foreign
  calls, and the genetic search of the intent engine.
