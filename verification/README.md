# bounded_spsc_queue

A bounded single-producer single-consumer queue over a ring buffer, verified with Verus.

- `src/model.rs`: what a bounded queue is, over sequences; `src/laws.rs`: its laws.
- `src/index.rs`: powers of two, and the slot of a position.
- `src/buffer.rs`: the ring buffer, with exact contracts over the sequence of its values.
- `src/memory.rs`: the memory that a ring asks for, and where its size overflows.
- `src/ledger.rs`: a ring buffer with a ghost account of what passed through it.
- `src/wait.rs`: what a push or a pop that waits does after each try.
- `src/numbered.rs`: a ledger that serves the call whose number is up.
- `src/guard.rs`: the lock of a ledger, which it leaves and enters one push or pop at a time.
- `src/handles.rs`: `make`, `Producer` and `Consumer`, which share a ledger behind that lock.
- `app/`: waits without a bound, an exchange between two threads, and benchmarks.

What a call on the ring buffer or a ledger does is stated exactly. Whether a call on a handle finds
the queue full or empty depends on what the other end did meanwhile, and is left open. Which value
it deals with is not: whoever makes a queue with `make_saying` says what is true of each value,
given how many are pushed before it; the producer must push what is said, and the consumer is
proved to get what is said, number by number. With `make` nothing is said, and nothing is asked.

A push or a pop on a handle that has to wait gives up after `u64::MAX` tries. The handles can be
sent to another thread where the values are `Send` and `Sync`.

Two functions are trusted: `take_slot` in `src/buffer.rs`, over `std::mem::take`, and `reclaim` in
`src/guard.rs`, which takes what is left out of the lock when the queue goes away.
