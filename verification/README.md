# galaxy_force

The rules of the Galaxy Force arcade shooter as a verified Verus library,
with the game's screens around it.

- `src/` — the library, verified by Verus: enemy kinds and hit points
  (`enemy`), the ship's health and lost-heart animation (`player`), the
  combat state with wave spawning, collision outcomes, kill counting and
  stage progression (`playing`), HUD contents (`hud`), the death-screen
  choice (`death`) and the music state (`audio`).
- `app/` — input, timers, positions, drawing and sound with macroquad; it
  asks the library for every decision that is not floating point.
- `tests/` — scenario tests of the library.
