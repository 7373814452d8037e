# rustcaster

A small first-person ray caster in the style of Wolfenstein 3D.

* `src/` is the verified library:
  * `level` — ASCII maps parsed into a grid of wall types with start cell,
    exit cell and the walkable cells the collectible orb may occupy; wall
    queries; the orb's default cell; the two built-in levels.
  * `motion` — the grid side of collision (corner cells of the player's box)
    and of ray casting (one cell per step, with a step limit).
  * `rng` — the xorshift64* generator used for orb respawns and particles.
  * `game` — the screens (welcome, playing, success), level choice, score,
    orb hits and respawns, reaching the exit.
* `app/main.rs` is the program: window, input, sound, drawing, and all
  floating-point work (player motion, ray distances, shading, particles).
