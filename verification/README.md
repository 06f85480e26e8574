# ecs_game

A small entity–component system for two browser games served over a
websocket, with the rules of the games verified by Verus.

- `src/entity_component.rs`: entities (one component per type id) and the
  system that holds them and updates their components type id by type id.
- `src/game1/`: type ids and message handling of the first game.
- `src/game2/`: fighters' status and attacks, the per-peer view of a
  fighter, and message handling of the second game.
- `src/message.rs`, `src/text.rs`, `src/command.rs`: message kinds,
  decimal rendering, and the commands sent to peers.
- `app/`: the servers, the floating-point positions, and the event loops.
