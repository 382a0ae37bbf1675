# zsim

A combat simulator whose decision logic is verified with Verus.

- `src/` is the verified library (`zsim`): entity tags, whole-number
  resource checks, buff stacking and expiry, anomaly and disorder tracking,
  the action-list scheduler (due checks, prerequisites, animation and hit
  frames, charging, cooldowns), the game state and its termination rules,
  coordinated reactions to combat events, disc set bonuses, seeded random
  numbers with snapshots, batch planning, and the validation rules of the
  data-entry forms. Each public function states in its contract what it
  returns or changes, in terms of what it is given; a reading of the
  clock is taken by a private function and handed to a public one that
  states the result exactly. The laws that tie several functions together
  are public proof functions.
- `tests/` exercises the library on concrete values.
- `app/` holds what the library does not: floating-point stats, damage
  formulas and resource checks, the simulation loop and the parallel batch
  runner, and the SQLite data entry with import and export of data files.
