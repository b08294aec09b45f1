//! The server as a whole: connections coming and going, the messages they
//! send, and the periodic tick that ends build phases, sets off bombs and
//! starts the next rounds.
//!
//! Sockets, timers and the JSON encoding stay with the caller; here a
//! connection is its player id, and every outcome is a list of
//! [`Effect`]s.
use crate::ids;
use crate::lobby::LobbyView;
use crate::lobby_manager::{
    bomb_after, bomb_checked, build_end_notice, build_phase_after, build_phase_checked,
    explosion_notice, lobby_notices, restart_checked, round_start_notice, LobbyManager,
    ManagerView,
};
use crate::message_broadcaster::MessageBroadcaster;
use crate::message_handler::{
    advances_counters, delivered, disconnect_done, effects_view, message_handled, Effect, EffectView, GeometryFacts,
    HandlerView, MessageHandler,
};
use crate::messages::{ClientMessage, MessageView, ServerMessage};
use crate::text::owned;
use vstd::prelude::*;

verus! {

pub struct GameServer {
    pub message_handler: MessageHandler,
}

impl View for GameServer {
    type V = HandlerView;

    open spec fn view(&self) -> HandlerView {
        self.message_handler@
    }
}

/// A tick, from `o` to `n` by way of the lobbies `built` and `exploded`:
/// every build phase that lasted long enough ends, then every bomb whose
/// timer ran out goes off, then every lobby whose round ended long enough
/// ago starts its next round; each is announced to its lobby.
pub open spec fn tick_outcome(
    o: HandlerView,
    n: HandlerView,
    built: Seq<LobbyView>,
    exploded: Seq<LobbyView>,
    es: Seq<EffectView>,
) -> bool {
    let before = o.manager.lobbies;
    let after = n.manager.lobbies;
    let b = o.broadcaster;
    let count = before.len() as int;
    &&& built.len() == before.len()
    &&& exploded.len() == before.len()
    &&& after.len() == before.len()
    &&& n == (HandlerView { manager: ManagerView { lobbies: after, ..o.manager }, ..o })
    &&& forall|i: int|
        0 <= i < before.len() ==> build_phase_checked(before[i], #[trigger] built[i])
            && bomb_checked(built[i], exploded[i]) && restart_checked(exploded[i], after[i])
    &&& es == delivered(lobby_notices(before, built, count, build_end_notice(b)))
        + delivered(lobby_notices(built, exploded, count, explosion_notice(b)))
        + delivered(lobby_notices(exploded, after, count, round_start_notice(b)))
}

/// The greeting a connection gets before it joins a lobby.
pub open spec fn greeting(player_id: Seq<char>) -> MessageView {
    MessageView::Welcome {
        player_id,
        lobby_id: "connecting"@,
        game_mode: "connecting"@,
    }
}

impl GameServer {
    /// A server with its deathmatch lobby open and nobody connected.
    pub fn new() -> (s: Self)
        ensures
            s@.wf(),
            s@.manager.lobbies.len() == 1,
            s@.manager.deathmatch_lobby_id == Some(s@.manager.lobbies[0].id),
            s@.manager.lobbies[0] == LobbyView::opened(
                s@.manager.lobbies[0].id,
                crate::lobby::GameMode::Deathmatch,
                s@.manager.lobbies[0].created_at,
            ),
            s@.manager.team_selection_lobby_id is None,
            s@.broadcaster.connections == Seq::<Seq<char>>::empty(),
            s@.broadcaster.lobbies == Seq::<(Seq<char>, Seq<Seq<char>>)>::empty(),
            s@.player_lobbies == Seq::<(Seq<char>, Seq<char>)>::empty(),
    {
        let lobby_manager = LobbyManager::new();
        let message_broadcaster = MessageBroadcaster::new();
        GameServer { message_handler: MessageHandler::new(lobby_manager, message_broadcaster) }
    }

    /// Ends every build phase that lasted long enough, sets off every bomb
    /// whose timer ran out, and starts the next round of every lobby whose
    /// round ended long enough ago. Returns what the caller is to send.
    pub fn tick(&mut self) -> (effects: Vec<Effect>)
        requires
            old(self)@.wf(),
            old(self)@.manager.scores_fit(),
            old(self)@.manager.round_numbers_fit(),
        ensures
            final(self)@.wf(),
            exists|built: Seq<LobbyView>, exploded: Seq<LobbyView>|
                #[trigger] tick_outcome(old(self)@, final(self)@, built, exploded, effects_view(effects@)),
    {
        let ghost o = self@;
        let h = &mut self.message_handler;
        let built = h.lobby_manager.check_all_build_phase_timeouts(&h.message_broadcaster);
        let ghost mid1 = h.lobby_manager@.lobbies;
        proof {
            assert forall|i: int| 0 <= i < mid1.len() implies (#[trigger] mid1[i]).orange_score
                < i32::MAX && mid1[i].red_score < i32::MAX && mid1[i].round_number < i32::MAX by {
                assert(o.manager.lobbies[i].orange_score < i32::MAX);
                assert(o.manager.lobbies[i].round_number < i32::MAX);
                assert(build_phase_checked(o.manager.lobbies[i], mid1[i]));
                let since = choose|since: Option<u64>|
                    since is Some == o.manager.lobbies[i].build_phase_start is Some
                        && #[trigger] build_phase_after(o.manager.lobbies[i], mid1[i], since);
                assert(build_phase_after(o.manager.lobbies[i], mid1[i], since));
            }
        }
        let exploded = h.lobby_manager.check_all_bomb_explosions(&h.message_broadcaster);
        let ghost mid2 = h.lobby_manager@.lobbies;
        proof {
            assert forall|i: int| 0 <= i < mid2.len() implies (#[trigger] mid2[i]).round_number
                < i32::MAX by {
                assert(mid1[i].round_number < i32::MAX);
                assert(bomb_checked(mid1[i], mid2[i]));
                let since = choose|since: Option<u64>|
                    since is Some == mid1[i].bomb_plant_time is Some
                        && #[trigger] bomb_after(mid1[i], mid2[i], since);
                assert(bomb_after(mid1[i], mid2[i], since));
            }
        }
        let restarted = h.lobby_manager.check_all_round_restarts(&h.message_broadcaster);
        let mut out: Vec<Effect> = Vec::new();
        crate::message_handler::push_deliveries(built, &mut out);
        crate::message_handler::push_deliveries(exploded, &mut out);
        crate::message_handler::push_deliveries(restarted, &mut out);
        let ghost count = o.manager.lobbies.len() as int;
        assert(self@ =~= (HandlerView {
            manager: ManagerView { lobbies: self@.manager.lobbies, ..o.manager },
            ..o
        }));
        assert(effects_view(out@) =~= delivered(
            lobby_notices(o.manager.lobbies, mid1, count, build_end_notice(o.broadcaster)),
        ) + delivered(lobby_notices(mid1, mid2, count, explosion_notice(o.broadcaster)))
            + delivered(
            lobby_notices(mid2, self@.manager.lobbies, count, round_start_notice(o.broadcaster)),
        ));
        assert(tick_outcome(o, self@, mid1, mid2, effects_view(out@)));
        out
    }

    /// Registers the connection of `player_id`. Returns its greeting.
    pub fn connect_player(&mut self, player_id: String) -> (greeting_msg: ServerMessage)
        requires
            old(self)@.wf(),
        ensures
            final(self)@.wf(),
            final(self)@ == (HandlerView {
                broadcaster: old(self)@.broadcaster.connected(player_id@),
                ..old(self)@
            }),
            greeting_msg@ == greeting(player_id@),
    {
        let ghost o = self@;
        let ghost player_id_view = player_id@;
        let msg = ServerMessage::Welcome {
            player_id: player_id.clone(),
            lobby_id: owned("connecting"),
            game_mode: owned("connecting"),
        };
        self.message_handler.message_broadcaster.add_connection(player_id);
        assert(self@ =~= (HandlerView { broadcaster: o.broadcaster.connected(player_id_view), ..o }));
        msg
    }

    /// Accepts a new connection under a fresh id. Returns the id and the
    /// connection's greeting.
    pub fn handle_connection(&mut self) -> (r: (String, ServerMessage))
        requires
            old(self)@.wf(),
        ensures
            final(self)@.wf(),
            final(self)@ == (HandlerView {
                broadcaster: old(self)@.broadcaster.connected(r.0@),
                ..old(self)@
            }),
            r.1@ == greeting(r.0@),
    {
        let player_id = ids::new_id();
        let id = player_id.clone();
        let msg = self.connect_player(player_id);
        (id, msg)
    }

    /// Handles a message that arrived on the connection of `player_id`.
    pub fn receive(
        &mut self,
        player_id: &str,
        message: ClientMessage,
        facts: GeometryFacts,
    ) -> (effects: Vec<Effect>)
        requires
            old(self)@.wf(),
            advances_counters(message) ==> old(self)@.room_in_lobby_of(player_id@),
        ensures
            final(self)@.wf(),
            message_handled(old(self)@, final(self)@, player_id@, message, facts, effects_view(effects@)),
    {
        self.message_handler.handle_message(player_id, message, facts)
    }

    /// The connection of `player_id` closed: it no longer receives, and it
    /// leaves its lobby.
    pub fn disconnect_player(&mut self, player_id: &str) -> (effects: Vec<Effect>)
        requires
            old(self)@.wf(),
        ensures
            final(self)@.wf(),
            disconnect_done(
                HandlerView {
                    broadcaster: old(self)@.broadcaster.disconnected(player_id@),
                    ..old(self)@
                },
                final(self)@,
                player_id@,
                effects_view(effects@),
            ),
    {
        self.message_handler.message_broadcaster.remove_connection(player_id);
        let mut out: Vec<Effect> = Vec::new();
        self.message_handler.handle_player_disconnect(player_id, &mut out);
        assert(effects_view(out@).skip(0) =~= effects_view(out@));
        out
    }
}

} // verus!
