# minecraft

A small voxel game. The rules of the game are a library verified with Verus
(`src/`); the window, rendering, input, terrain noise and save files are an
ordinary bevy program around it (`app/`).

## Layout

- `src/types.rs`: block kinds, chunk positions, the key of a chunk position,
  the layout of the blocks of a chunk.
- `src/blocks.rs`: the properties (textures, transparency) of each block kind.
- `src/chunks.rs`: chunks, terrain columns from heights, face heights, the
  edits made to the world and the chunks to mesh again after an edit.
- `src/greedy.rs`, `src/meshing.rs`: the visible faces of a chunk, merged into
  rectangles, and the mesh data built from them.
- `src/world.rs`: which chunks are wanted around the player, closest first,
  which are loaded, unloaded and ready to be meshed.
- `src/camera.rs`: movement keys, block coordinates and block edits.
- `src/saves.rs`: save file names, the order of saves, and the edits written
  to and read from a save.
- `src/gamestate.rs`, `src/ui.rs`: screens, the menu history, buttons, the
  world name being typed and the statistics label.
- `src/text.rs`: decimal notation and the string operations the library uses.
- `tests/`: tests of the library on concrete values.
- `app/`: the bevy program.
