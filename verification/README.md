# home_monitor

Runtime monitoring of temporal properties over the states of smart-home
devices, written in Verus.

A property (an `Expr`, see `src/program`) is compiled into a flat list of
derived streams (`src/monitor_setup`). At every tick the monitor records the
device states in a ring of time slots, opens a verdict for the current time
point, evaluates every open verdict with a three-valued logic (true, false,
undecided) and reports the properties that were violated (`src/monitor`).

Layout:

- `src/program`: the syntax of properties.
- `src/monitor_setup`: compilation of properties and the length of the
  device history that they need.
- `src/monitor`: stream values and their operators, device history and
  output streams, evaluation of compiled properties and the monitoring step.
- `src/syntax_tree.rs`: drawing of a parsed property as an indented tree.
- `src/utils`: builders of properties and device streams, and helpers that
  run the monitor for a number of steps.
- `app/main.rs`: the monitoring loop (timer, input of device states,
  printing of violations).

Numbers are fixed point: `1_000` stands for `1`, truth is `1_000` and
falsity `0`.
