//! Authoritative game-server logic for a round-based team shooter:
//! players, lobbies, rounds, the bomb, the economy and the message protocol.

pub mod clock;
pub mod ids;
pub mod text;
pub mod player;
pub mod spawn_system;
pub mod roster;
pub mod lobby;
pub mod messages;
pub mod laws;
pub mod message_broadcaster;
pub mod announcements;
pub mod lobby_manager;
pub mod message_handler;
pub mod player_manager;
pub mod server;
pub mod handler_laws;

