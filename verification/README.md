# astratomic

A falling-sand world engine whose rules carry machine-checked contracts.

- `src/` is the verified engine: chunk and atom coordinates, the dirty
  rectangles that limit updates to what changed, the 3x3 chunk groups that
  are updated together (and the proof that the groups of one step never
  share an atom), the rules of falling powders, of liquids and of atoms
  moving by velocity,
  actors walking and climbing, particles, rigidbodies laid into the world,
  the player's tool and inventory, and the moving of the loaded area with
  saving and loading of chunks.
- `tests/` runs the engine on concrete worlds.
- `app/` is the game around it (bevy, rapier, noise generation, ron and
  bincode files): rendering, physics, input, and what works with floats
  (the chances and kick of falling powder, the line a velocity follows,
  the camera).
