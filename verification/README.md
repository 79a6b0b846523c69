# openmind_conductor

Multi-agent orchestration: a shared plan (the score), mailboxes (the baton),
conflict resolution (harmony voting) and muscle memory, with the decision logic
proved in Verus.

Layout:

- `src/` — the verified library.
  - `trit` — ternary digits and their values.
  - `names` — `NameMap`, values found by name (distinct names, insertion order).
  - `harmony` — tallying, majority / consensus / weighted outcomes, dissent log.
  - `memory`, `ensemble` — patterns, agents, and the parts of conducting.
  - `score`, `measure` — scores, steps, timings, fermatas and the waiting rule.
  - `conductor` — `ScoreRun`, the state machine that plays a score.
  - `baton` — mailbox routing over tokio channels.
- `app/` — the runtime around it: binary64 arithmetic (the library keeps
  binary64 values as their bit patterns and asks for each product and
  comparison), JSON documents, clocks and async sends/receives.
- `tests/` — tests of the library.
