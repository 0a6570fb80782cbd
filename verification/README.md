# stu_minecraft

A small multiplayer block game: an authoritative UDP server and a Bevy client.
The game's rules live in a library verified with Verus; the program around it
handles sockets, rendering and input.

## Layout

- `src/` — the verified library
  - `block`, `chunk`: block kinds, chunk storage and cell addressing
  - `terrain`: building a chunk from per-column terrain samples (ground layers, trees)
  - `mesh`: the faces, corner occlusion and triangles of a chunk mesh; water tops
  - `protocol`: client and server packets
  - `world`: the server's record of changed cells and how edits are applied
  - `server`: the server's state machine (connects, moves, edits, chat,
    keepalive, timeouts), with its invariants and laws
  - `inventory`, `chat`, `lookup`, `net`: the client's hotbar, chat line,
    world lookups and reactions to server packets
- `tests/` — tests of the library on concrete values
- `app/` — the executable: `stu_minecraft server` runs the UDP server,
  `stu_minecraft client [NAME] [ADDR]` the Bevy client. It holds I/O, the
  wire encoding (serde and bincode), Perlin-noise sampling and everything in
  floating point (physics, camera, rendering).
