# rsgo

The authoritative server of a round-based team shooter: players, lobbies,
rounds, the bomb, the economy and the message protocol, with the game logic
formally verified against its specification.

## Layout

- `src/` — the verified library.
  - `player.rs`, `spawn_system.rs`, `roster.rs`, `player_manager.rs`: players,
    their health, shield, money and spawn points.
  - `lobby.rs`: one lobby and its round state machine (build phase, play,
    bomb, round end, halftime, match end), with a mathematical model
    (`LobbyView`) that every operation is specified against.
  - `lobby_manager.rs`: all lobbies, and the periodic checks.
  - `message_broadcaster.rs`, `messages.rs`, `announcements.rs`: the protocol
    and who receives what.
  - `message_handler.rs`, `server.rs`: what each client message does, as
    effects for the caller to carry out.
  - `laws.rs`, `handler_laws.rs`: properties proved across operations.
  - `clock.rs`, `ids.rs`: the clock and fresh identifiers, the only calls the
    logic makes into code that is not verified.
- `app/` — the process around the library: WebSockets, JSON, timers, and the
  floating-point geometry of shots and walls.
- `tests/` — tests of the library.

Coordinates travel through the library as the bit patterns of `f32` values;
decisions that need floating-point arithmetic are made in `app/` and handed
to the library as booleans.
