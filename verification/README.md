# prediction_verifier

Verified core of a Soroban contract that combines two services:

- an **idea board**: authors post ideas, edit and delete their own, and
  voters cast one vote per idea (titles, bodies and categories are kept as
  the bytes given), weighted by the score that a configured
  reputation contract reports (score / 100, refused unless positive);
- a **prediction verifier**: an admin whitelists oracles, and a whitelisted
  oracle resolves a prediction after its deadline; the result is `Correct`
  when the actual price reached the target, and a resolution is final.

Layout:

- `src/types.rs`: the plain data types and error codes.
- `src/tally.rs`: vote weights and the tally arithmetic, with its laws.
- `src/board.rs`: the idea board as a mathematical state, its operations,
  the board invariant (each stored tally equals the sum of the idea's votes;
  author and category lists hold exactly the matching ids) and its laws,
  including laws over any sequence of calls (`IdeaState::run`).
- `src/ideas.rs`: the executable idea board, proved against `board.rs`.
- `src/oracle.rs`: the prediction verifier, its state model and its laws,
  including that a resolution survives any sequence of calls.
- `app/lib.rs`: the Soroban contract: authentication, ledger time, the
  cross-contract call for reputation scores, persistence and events.
- `tests/`: scenario tests of both services.
