# rx_parity

Stream combinators (combine-latest, sample, switch) whose polling decisions
are verified with Verus.

- `src/` is the library: for each combinator a state type that holds the
  input streams and what the combinator remembers of them, and step functions
  that take what a poll of an input gave (`PollNext`) and decide what to poll
  next and what the combined stream reports. The contracts state each step
  exactly; the `lemma_*` proof functions state the laws of each combinator.
- `app/` is the program around it: `futures::Stream` impls that poll the
  inputs and hand the outcomes to the library, the `StreamExt` extension
  trait, and a demo `main`.
- `tests/` drive the state types by hand.
