# shape_arena

The server of a small multiplayer browser game: players move shapes through an
arena full of enemies, pick up items, and talk to the server over HTTP and a
websocket.

- `src/` is the verified library (Verus). It holds everything the server
  decides without floating point: parsing of the client's text messages and of
  HTTP requests, routing, the websocket handshake and framing, the inventory
  and key handling, the timers of player and enemy effects, consumable items,
  and who is alive after a frame's contacts. Each public function states its
  result in its `ensures`; the laws that relate several calls are public proof
  functions next to the code they speak of.
- `app/` is the program around it: sockets and threads, the game loop, and the
  geometry, which works on floats (positions, velocities, collisions). It calls
  the library for every decision the library can make.
- `tests/` runs the library on concrete values.
