# tach

A checker and a guard for repositories that agents edit, with their contracts
proved by Verus.

- `src/check`, `src/types`, `src/infer`, `src/walk`: effects, imports and return
  types of a program; every finding carries an edit that mends it.
- `src/guard`: the session that governs a repository. `open` begins one, `plan`
  says what an agent should do next, `verify` runs the required commands through
  receipts, `ledger` commits, aborts and replays, `laws` and `reuse` state what
  holds of a session as a whole.
- `src/snapshot`, `src/goal`, `src/glob`, `src/store`, `src/event`: the tree, the
  goal and the records that a session works on.
- `src/json`: the JSON documents of `serde_json`, seen as mathematical trees. What
  is believed of that crate stands there, and nowhere else.
- `src/term`: colours.

The library decides and computes; `app/` reads the working tree, runs commands,
writes the records and prints packets.
