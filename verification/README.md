# jishuken

Self-verifying memory for agents. A fact is a claim `entity.relation` with a value,
and carries two signals that never merge: how much to believe it, and whether it was
ever checked against a real source. Facts are bound to grounds (a file, a command, a
sandboxed script), checked by pure predicates, and scheduled by what a check is worth.

## Layout

- `src/` is the library: keys and paths, durations and the calendar, source locators,
  predicates, grounding and verification, the store's files, history, undo and rollback
  journal, the scheduler, and what the command line and the agent server say. All of it
  is verified with Verus.
- `app/` is the `ken` program around it: files, processes, the clock, the MCP server,
  and everything computed in floating point (decay, Kalman updates, calibration, cost
  quantiles, centrality).
- `tests/` runs the library on concrete values.

## How the pieces meet

The library never touches the disk, a process or the clock. A caller reads files and
sources, hands plain values in, and performs what comes back: the files to stage
(`store`), the steps of a commit or a recovery (`transaction`), the plan of a read
(`resolve`), the launch of a sandbox (`generator`).

Real numbers are carried as their bit patterns (`number::Real`): the library orders,
compares and clamps them, and the caller computes with them.

What `serde_json`, `regex`, `blake3`, `chrono` and `unicode-normalization` compute is
called where it is needed, behind functions whose contracts say what is relied on.
