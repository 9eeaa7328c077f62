# fabric_core

A verified, deterministic, in-memory two-agent meeting-agreement simulator.
Two scheduling agents each evaluate at most three disclosed UTC candidates
against a private calendar, exchange one eligibility bit per candidate, record
explicit owner yes/no decisions, and a reducer selects the first candidate, in
proposal order, that both agents found eligible and both owners accepted. Each
endpoint can run its own reducer; both derive the same agreement and the same
length-prefixed comparison key.

Layout:

- `src/calendar.rs` — checked half-open UTC intervals and private busy calendars.
- `src/identifier.rs` — bounded, log-safe identifiers.
- `src/error.rs` — validation errors and their messages.
- `src/rendezvous.rs` — requests, candidate rounds, eligibility, decisions,
  scheduling agents and agreements, each with a mathematical model.
- `src/negotiation.rs` — the reducer, its step functions, its invariant and the
  agreement key.
- `src/laws.rs` — proofs of properties that span submissions: convergence,
  arrival-order independence, idempotent replays, first-unanimous selection,
  the outcome of a whole two-agent meeting from the two calendars and the two
  owners' choices, data minimization, and that the agreement key of valid
  rounds and candidates determines the agreement.
- `src/text.rs`, `src/transcript.rs` — decimal and length-prefixed encodings,
  and the `id:yes,...` transcript renderings.
- `app/main.rs` — the `fabric` command line (`status`, `demo-meeting`).
- `tests/` — scenario tests.
