# cpum_core

The core of a Windows CPU affinity manager: affinity rules (per-group masks,
CPU Sets, CPU / IO / memory priorities), process matching, the rule file
checks, the rule-application plan, the privileged bridge protocol between the
desktop app and the service, the ProBalance optimizer (contention detection,
background downgrades, automatic restores, Game Mode boost, its action journal),
CPU topology assembly, and the metric computations of the process view.

The library under `src/` is written in Verus: every function carries a
`requires` / `ensures` contract that Verus proves, and the laws the engine keeps
(no downgrade of a protected or foreground process, restores carry the recorded
values, hysteresis, read-after-write of the rule list, mask text round trips)
are public proof functions.

- `src/` the verified library (`rule`, `matcher`, `procwin`, `store`, `engine`,
  `ipc`, `monitor`, `probalance/{config,engine,journal,runtime}`, `service`,
  `commands`, `metrics`, `topology`, and the text helpers).
- `tests/` the tests, run against the compiled library.
- `app/` the Windows service binary: Win32 calls, files and JSON, the named
  pipe, and the loop that feeds the library and performs its decisions.
