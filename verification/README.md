# taskmgr_core

A terminal task manager for Linux — processes, performance graphs, XDG
autostart entries and systemd services — whose logic is a library verified
with Verus.

- `src/` is the verified library. Every executable function carries a
  `requires`/`ensures` contract over mathematical models (`Seq`, `nat`,
  spec functions), and the library states its laws as proof functions:
  - `processes`: process rows, the filter predicate, the sort state and the
    table order (a total order with a pid tie-break, so the arrangement does
    not depend on the order rows were sampled in);
  - `util`, `text`: byte formatting (`human_bytes` reproduces one-decimal
    binary units exactly, with round-half-even), truncation, ASCII case
    folding and search;
  - `desktop`, `startup`: reading and rewriting `.desktop` files, and
    merging the user and system autostart directories so that a user
    override masks the system entry;
  - `services`: which units of a systemd `ListUnits` reply are shown, the
    manager calls each operation makes, and how D-Bus failures map to
    errors;
  - `actions`: kill signals and how a refused kill is reported;
  - `sampler`, `performance`: block-device counters and the snapshot types;
  - `console`, `view`: the front end's state machine (keys to state and
    commands) and what each widget shows.
- `app/` is the program around it: the terminal loop (crossterm, ratatui),
  sampling the machine (sysinfo, `/sys/block`), sending signals (nix),
  talking to systemd (zbus) and touching autostart files.
- `tests/` runs the library on concrete values.
