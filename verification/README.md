# frostbyte-core

The decision logic of FrostByte, a thermal guardian and runaway-process
watchdog for Windows, verified with Verus.

- `src/` — the library. `safety` (immunity rules), `heuristics` (runaway
  single-core loop detection), `process` (CPU accounting over consecutive
  snapshots, orphan detection, ordering by CPU share), `thermal` (sensor
  selection, zone and `nvidia-smi` readings, snapshot assembly), `governor`
  (Turbo Boost clamp with hysteresis), `mitigation` (job-object book keeping,
  termination check), `lib.rs` (`Watchdog`, one tick). Percentages are
  tenths of a percent, temperatures tenths of a degree Celsius.
- `app/` — the command-line front end and everything that touches the
  machine: Win32 process/thread tables and CPU times, PDH thermal zones,
  `nvidia-smi`, `powercfg`, job objects, termination, settings file.
- `tests/` — the unit tests.

## Collections

- `SafetyEngine` keeps its user whitelist in a `Vec<String>` with a set of
  names as its view. vstd's specifications of `HashSet` hold only for key
  types that obey its hash-table key model (`obeys_key_model`), and vstd
  gives that axiom for integers, `bool` and boxes of them, not for
  `String`; with a `HashSet<String>` nothing could be proved of membership.
  The whitelist is therefore a vector searched by string equality, in which
  no name is stored twice.
- `JobRateLimiter` keeps its book in a `HashMap<u32, TamedJob>` keyed by
  pid; `revert_all` hands the whole map back for the caller to release.
