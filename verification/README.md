# server

A small multiplayer game server. Clients connect over websockets, send move
inputs, and receive entity updates and the tiles of the world around them.

The crate has two parts:

- `src/` is the verified core, written with Verus. It holds the world's
  chunks and tiles, the chunk store and the rules for loading and unloading
  chunks, the entity components, the wire codes of server messages and how
  they are routed, and the decisions of the systems: reading move inputs,
  numbering new players, turning entities toward the way they move, and
  choosing which chunks to send to which players. Every function there carries
  a contract that Verus proves, and the `lemma_*` proof functions state the
  laws that hold across calls.
- `app/` is the program around it: the websocket server (tokio, tungstenite),
  the ECS world and its dispatcher (specs), JSON (serde), terrain generation
  from noise, the SQLite world settings, and the parts that compute with
  floating-point positions and velocities.

`tests/` exercises the library on concrete values.
