//! The server's answer to each client message: how the game changes, and
//! what is sent to whom.
//!
//! Handling a message yields [`Effect`]s: deliveries of messages, and the
//! changes to the map's structures and the delayed round restart that the
//! caller carries out. Facts that take floating-point geometry to decide
//! (whether a wall blocks a shot, whether a player stands close enough to the
//! bomb, whether a bullet hole was added to a wall) come in as
//! [`GeometryFacts`].
use crate::lobby::{pairs_view, team_roster, GameMode, GameState, LobbyView, TeamColor, BOMB_TIMER_SECS};
use crate::lobby_manager::{
    lobby_counters_fit, LobbyManager, ManagerView, BUY_TIME_SECS, HIT_DAMAGE,
};
use crate::message_broadcaster::{BroadcasterView, MessageBroadcaster};
use crate::messages::{
    deliveries_view, ClientMessage, Delivery, DeliveryView, MessageView, ServerMessage, TeamPlayer,
    TeamPlayerView,
};
use crate::player::{Player, PlayerView};
use crate::roster::{has_player, player_of, update_player};
use crate::spawn_system::{SpawnSystem, BITS_ZERO};
use crate::text::{owned, same_text};
use std::time::Instant;
use vstd::prelude::*;

verus! {

/// `5.0`, the height at which a joining player appears.
pub const BITS_FIVE: u32 = 0x40A0_0000;

/// Where a joining player appears: (0, 5, 0).
pub open spec fn join_position() -> (u32, u32, u32) {
    (BITS_ZERO, BITS_FIVE, BITS_ZERO)
}

/// What floating-point geometry decided about a message.
#[derive(Debug, Clone, Copy)]
pub struct GeometryFacts {
    /// A wall stands between the shooter and the target of a hit.
    pub shot_blocked: bool,
    /// The player stands close enough to the dropped bomb to pick it up.
    pub bomb_within_pickup_reach: bool,
    /// The player stands close enough to the planted bomb to defuse it.
    pub bomb_within_defuse_reach: bool,
    /// The bullet hole of a wall hit was added to a wall.
    pub wall_hole_added: bool,
}

/// What the caller is to do after a message was handled.
#[derive(Debug)]
pub enum Effect {
    /// Send a message to its recipients.
    Deliver(Delivery),
    /// Record a structure placed in a lobby at (x, z), turned by `rotation`.
    AddStructure { lobby_id: String, structure_type: String, x: u32, z: u32, rotation: u32 },
    /// Remove every structure of a lobby.
    ClearStructures { lobby_id: String },
    /// After the pause between rounds, call
    /// [`MessageHandler::resume_after_round_end`] for the lobby.
    RestartRoundLater { lobby_id: String },
}

pub enum EffectView {
    Deliver(DeliveryView),
    AddStructure {
        lobby_id: Seq<char>,
        structure_type: Seq<char>,
        x: u32,
        z: u32,
        rotation: u32,
    },
    ClearStructures { lobby_id: Seq<char> },
    RestartRoundLater { lobby_id: Seq<char> },
}

impl View for Effect {
    type V = EffectView;

    open spec fn view(&self) -> EffectView {
        match self {
            Effect::Deliver(d) => EffectView::Deliver(d@),
            Effect::AddStructure { lobby_id, structure_type, x, z, rotation } =>
                EffectView::AddStructure {
                lobby_id: lobby_id@,
                structure_type: structure_type@,
                x: *x,
                z: *z,
                rotation: *rotation,
            },
            Effect::ClearStructures { lobby_id } => EffectView::ClearStructures {
                lobby_id: lobby_id@,
            },
            Effect::RestartRoundLater { lobby_id } => EffectView::RestartRoundLater {
                lobby_id: lobby_id@,
            },
        }
    }
}

pub open spec fn effects_view(es: Seq<Effect>) -> Seq<EffectView> {
    es.map_values(|e: Effect| e@)
}

pub open spec fn deliver(recipients: Seq<Seq<char>>, message: MessageView) -> EffectView {
    EffectView::Deliver(DeliveryView { recipients, message })
}

pub open spec fn delivered(ds: Seq<DeliveryView>) -> Seq<EffectView> {
    ds.map_values(|d: DeliveryView| EffectView::Deliver(d))
}

pub struct MessageHandler {
    pub lobby_manager: LobbyManager,
    pub message_broadcaster: MessageBroadcaster,
    pub spawn_system: SpawnSystem,
    pub player_lobbies: Vec<(String, String)>,
}

/// The mathematical model of a [`MessageHandler`]: the lobbies, who receives
/// what, and which lobby each player is in.
#[verifier::ext_equal]
pub struct HandlerView {
    pub manager: ManagerView,
    pub broadcaster: BroadcasterView,
    pub player_lobbies: Seq<(Seq<char>, Seq<char>)>,
}

impl View for MessageHandler {
    type V = HandlerView;

    open spec fn view(&self) -> HandlerView {
        HandlerView {
            manager: self.lobby_manager@,
            broadcaster: self.message_broadcaster@,
            player_lobbies: self.player_lobbies@.map_values(|e: (String, String)| (e.0@, e.1@)),
        }
    }
}

/// A player's team list entry, as the team lists show it.
pub open spec fn team_players(pairs: Seq<(Seq<char>, Seq<char>)>) -> Seq<TeamPlayerView> {
    pairs.map_values(|e: (Seq<char>, Seq<char>)| TeamPlayerView { id: e.0, name: e.1 })
}

/// Whether `e` is the scoreboard of the lobby `lobby` in `m`, sent to the lobby.
pub open spec fn is_scoreboard_delivery(
    b: BroadcasterView,
    m: ManagerView,
    lobby: Seq<char>,
    e: EffectView,
) -> bool {
    e == deliver(
        b.lobby_recipients(lobby, None),
        MessageView::ScoreboardUpdate { players: crate::lobby_manager::scoreboard_rows(m, lobby) },
    )
}

/// The team lists of the lobby `lobby` in `m`, sent to the lobby.
pub open spec fn team_update_effects(b: BroadcasterView, m: ManagerView, lobby: Seq<char>) -> Seq<
    EffectView,
> {
    if m.has(lobby) {
        let l = m.lobby(lobby);
        let orange = team_players(team_roster(l.orange_team, l.players));
        let red = team_players(team_roster(l.red_team, l.players));
        seq![
            deliver(
                b.lobby_recipients(lobby, None),
                MessageView::TeamUpdate {
                    orange_team: orange,
                    red_team: red,
                    can_start: orange.len() >= 1 && red.len() >= 1,
                },
            ),
        ]
    } else {
        Seq::empty()
    }
}

impl HandlerView {
    /// The broadcaster, the lobbies and the player table keep their
    /// invariants; the deathmatch lobby is known; each player is in one lobby.
    pub open spec fn wf(self) -> bool {
        &&& self.manager.wf()
        &&& self.broadcaster.wf()
        &&& self.manager.deathmatch_lobby_id is Some
        &&& forall|i: int, j: int|
            0 <= i < self.player_lobbies.len() && 0 <= j < self.player_lobbies.len()
                && #[trigger] self.player_lobbies[i].0 == #[trigger] self.player_lobbies[j].0 ==> i
                == j
    }

    pub open spec fn has_assignment(self, player: Seq<char>) -> bool {
        exists|i: int| 0 <= i < self.player_lobbies.len() && #[trigger] self.player_lobbies[i].0 == player
    }

    pub open spec fn assignment_index(self, player: Seq<char>) -> int {
        choose|i: int| 0 <= i < self.player_lobbies.len() && #[trigger] self.player_lobbies[i].0 == player
    }

    /// The lobby `player` is in, if any.
    pub open spec fn lobby_of_player(self, player: Seq<char>) -> Option<Seq<char>> {
        if self.has_assignment(player) {
            Some(self.player_lobbies[self.assignment_index(player)].1)
        } else {
            None
        }
    }

    /// The player table with `player` in `lobby`.
    pub open spec fn assigned(self, player: Seq<char>, lobby: Seq<char>) -> Seq<(Seq<char>, Seq<char>)> {
        if self.has_assignment(player) {
            self.player_lobbies.update(self.assignment_index(player), (player, lobby))
        } else {
            self.player_lobbies.push((player, lobby))
        }
    }

    /// The player table without `player`.
    pub open spec fn unassigned(self, player: Seq<char>) -> Seq<(Seq<char>, Seq<char>)> {
        if self.has_assignment(player) {
            self.player_lobbies.remove(self.assignment_index(player))
        } else {
            self.player_lobbies
        }
    }

    pub open spec fn with_manager(self, m: ManagerView) -> HandlerView {
        HandlerView { manager: m, ..self }
    }

    /// Whether the counters of the lobby `player` is in, if any, have room
    /// for what a message of that player can advance.
    pub open spec fn room_in_lobby_of(self, player: Seq<char>) -> bool {
        match self.lobby_of_player(player) {
            Some(l) => self.manager.has(l) ==> lobby_counters_fit(self.manager.lobby(l)),
            None => true,
        }
    }
}

/// A move is recorded and relayed to the rest of the mover's lobby.
pub open spec fn move_done(
    o: HandlerView,
    n: HandlerView,
    pid: Seq<char>,
    x: u32,
    y: u32,
    z: u32,
    rotation_x: u32,
    rotation_y: u32,
    es: Seq<EffectView>,
) -> bool {
    match o.lobby_of_player(pid) {
        Some(l) => {
            let before = o.manager.lobby(l);
            &&& n == o.with_manager(
                o.manager.with_lobby(
                    l,
                    LobbyView {
                        players: update_player(
                            before.players,
                            pid,
                            |p: PlayerView| p.moved(x, y, z, rotation_x, rotation_y),
                        ),
                        ..before
                    },
                ),
            )
            &&& es == seq![
                deliver(
                    o.broadcaster.lobby_recipients(l, Some(pid)),
                    MessageView::PlayerMoved { player_id: pid, x, y, z, rotation_x, rotation_y },
                ),
            ]
        },
        None => n == o && es.len() == 0,
    }
}

pub open spec fn team_color_named(team: Seq<char>) -> Option<TeamColor> {
    if team == "orange"@ {
        Some(TeamColor::Orange)
    } else if team == "red"@ {
        Some(TeamColor::Red)
    } else {
        None
    }
}

/// A player in a lobby moves to the named team; on success the lobby sees
/// the new team lists.
pub open spec fn join_team_done(
    o: HandlerView,
    n: HandlerView,
    pid: Seq<char>,
    team: Seq<char>,
    es: Seq<EffectView>,
) -> bool {
    match (o.lobby_of_player(pid), team_color_named(team)) {
        (Some(l), Some(c)) => {
            let joined = o.manager.has(l) && o.manager.lobby(l).can_join(pid, c);
            &&& n == o.with_manager(
                o.manager.with_lobby(l, o.manager.lobby(l).joined_team(pid, c)),
            )
            &&& es == if joined {
                team_update_effects(n.broadcaster, n.manager, l)
            } else {
                Seq::empty()
            }
        },
        _ => n == o && es.len() == 0,
    }
}

/// A carrier plants the bomb; the lobby learns where and how long it ticks.
pub open spec fn plant_done(
    o: HandlerView,
    n: HandlerView,
    pid: Seq<char>,
    x: Option<u32>,
    z: Option<u32>,
    es: Seq<EffectView>,
) -> bool {
    match o.lobby_of_player(pid) {
        Some(l) => {
            let before = o.manager.lobby(l);
            let after = n.manager.lobby(l);
            if o.manager.has(l) && before.can_plant(pid) {
                let spot = before.plant_spot(pid, x, z);
                &&& n.manager.has(l)
                &&& after.bomb_plant_time is Some
                &&& after == before.planted(pid, x, z, after.bomb_plant_time.unwrap())
                &&& n == o.with_manager(o.manager.with_lobby(l, after))
                &&& es == seq![
                    deliver(
                        o.broadcaster.lobby_recipients(l, None),
                        MessageView::BombPlanted {
                            player_id: pid,
                            timer: BOMB_TIMER_SECS as int,
                            position_x: spot.0,
                            position_z: spot.1,
                        },
                    ),
                ]
            } else {
                n == o && es.len() == 0
            }
        },
        None => n == o && es.len() == 0,
    }
}

/// A carrier drops the bomb; the lobby learns where.
pub open spec fn drop_done(o: HandlerView, n: HandlerView, pid: Seq<char>, es: Seq<EffectView>) -> bool {
    match o.lobby_of_player(pid) {
        Some(l) => {
            let before = o.manager.lobby(l);
            if o.manager.has(l) && before.can_drop(pid) {
                let spot = before.drop_spot(pid);
                &&& n == o.with_manager(o.manager.with_lobby(l, before.dropped(pid)))
                &&& es == seq![
                    deliver(
                        o.broadcaster.lobby_recipients(l, None),
                        MessageView::BombDropped {
                            position_x: spot.0,
                            position_y: spot.1,
                            position_z: spot.2,
                        },
                    ),
                ]
            } else {
                n == o && es.len() == 0
            }
        },
        None => n == o && es.len() == 0,
    }
}

/// An attacker close to the dropped bomb picks it up; the lobby learns who.
pub open spec fn pickup_done(
    o: HandlerView,
    n: HandlerView,
    pid: Seq<char>,
    within_reach: bool,
    es: Seq<EffectView>,
) -> bool {
    match o.lobby_of_player(pid) {
        Some(l) => {
            let before = o.manager.lobby(l);
            if o.manager.has(l) && before.can_pick_up(pid, within_reach) {
                &&& n == o.with_manager(o.manager.with_lobby(l, before.picked_up(pid)))
                &&& es == seq![
                    deliver(
                        o.broadcaster.lobby_recipients(l, None),
                        MessageView::BombPickedUp {
                            player_id: pid,
                            player_name: player_of(before.players, pid).name,
                        },
                    ),
                ]
            } else {
                n == o && es.len() == 0
            }
        },
        None => n == o && es.len() == 0,
    }
}

/// A player respawns, where the lobby allows it; the lobby sees the
/// respawned player.
pub open spec fn respawn_done(o: HandlerView, n: HandlerView, pid: Seq<char>, es: Seq<EffectView>) -> bool {
    match o.lobby_of_player(pid) {
        Some(l) => {
            let before = o.manager.lobby(l);
            let allowed = o.manager.has(l) && (before.game_mode == crate::lobby::GameMode::Deathmatch
                || before.game_state == GameState::RoundEnd || before.game_state
                == GameState::BuildPhase || before.game_state == GameState::WaitingForPlayers);
            if allowed {
                let after = LobbyView {
                    players: update_player(
                        before.players,
                        pid,
                        |p: PlayerView| p.respawned(before.spawn_position(pid)),
                    ),
                    ..before
                };
                &&& n == o.with_manager(o.manager.with_lobby(l, after))
                &&& es == if has_player(before.players, pid) {
                    seq![
                        deliver(
                            o.broadcaster.lobby_recipients(l, None),
                            MessageView::PlayerRespawned { player: player_of(after.players, pid) },
                        ),
                    ]
                } else {
                    Seq::empty()
                }
            } else {
                n == o && es.len() == 0
            }
        },
        None => n == o && es.len() == 0,
    }
}


/// Shots are relayed to the rest of the shooter's lobby.
pub open spec fn shoot_done(
    o: HandlerView,
    n: HandlerView,
    pid: Seq<char>,
    start: (u32, u32, u32),
    target: (u32, u32, u32),
    es: Seq<EffectView>,
) -> bool {
    &&& n == o
    &&& es == match o.lobby_of_player(pid) {
        Some(l) => seq![
            deliver(
                o.broadcaster.lobby_recipients(l, Some(pid)),
                MessageView::PlayerShot {
                    shooter_id: pid,
                    start_x: start.0,
                    start_y: start.1,
                    start_z: start.2,
                    target_x: target.0,
                    target_y: target.1,
                    target_z: target.2,
                },
            ),
        ],
        None => Seq::empty(),
    }
}

/// A bullet hole that was added to a wall is announced to the lobby.
pub open spec fn wall_hit_done(
    o: HandlerView,
    n: HandlerView,
    pid: Seq<char>,
    hole: (u32, u32, u32, u32, u32),
    hole_added: bool,
    es: Seq<EffectView>,
) -> bool {
    &&& n == o
    &&& es == match o.lobby_of_player(pid) {
        Some(l) => if hole_added {
            seq![
                deliver(
                    o.broadcaster.lobby_recipients(l, None),
                    MessageView::WallHole {
                        wall_x: hole.0,
                        wall_z: hole.1,
                        local_x: hole.2,
                        world_y: hole.3,
                        radius: hole.4,
                    },
                ),
            ]
        } else {
            Seq::empty()
        },
        None => Seq::empty(),
    }
}


/// What a structure costs: `"large"` 800, `"destructible"` 600, `"small"`
/// and `"barrier"` 400; anything else is free.
pub open spec fn structure_price(structure_type: Seq<char>) -> int {
    if structure_type == "large"@ {
        800
    } else if structure_type == "destructible"@ {
        600
    } else if structure_type == "small"@ || structure_type == "barrier"@ {
        400
    } else {
        0
    }
}

/// A structure is placed in the player's lobby; a priced one is paid for
/// first, and refused to a player who cannot pay.
pub open spec fn place_done(
    o: HandlerView,
    n: HandlerView,
    pid: Seq<char>,
    structure_type: Seq<char>,
    pos: (u32, u32, u32),
    es: Seq<EffectView>,
) -> bool {
    match o.lobby_of_player(pid) {
        Some(l) => {
            let before = o.manager.lobby(l);
            let price = structure_price(structure_type);
            let pays = price > 0 && o.manager.has(l) && has_player(before.players, pid);
            let money = player_of(before.players, pid).money;
            if pays && money < price {
                n == o && es.len() == 0
            } else {
                let placed = seq![
                    EffectView::AddStructure {
                        lobby_id: l,
                        structure_type,
                        x: pos.0,
                        z: pos.2,
                        rotation: pos.1,
                    },
                    deliver(
                        o.broadcaster.lobby_recipients(l, Some(pid)),
                        MessageView::StructurePlaced {
                            player_id: pid,
                            structure_type,
                            x: pos.0,
                            y: pos.1,
                            z: pos.2,
                        },
                    ),
                ];
                if pays {
                    &&& n == o.with_manager(
                        o.manager.with_lobby(
                            l,
                            LobbyView {
                                players: update_player(
                                    before.players,
                                    pid,
                                    |p: PlayerView| crate::lobby::with_money(p, money - price),
                                ),
                                ..before
                            },
                        ),
                    )
                    &&& es == seq![
                        deliver(
                            o.broadcaster.player_recipients(pid),
                            MessageView::MoneyUpdate { player_id: pid, money: money - price },
                        ),
                    ] + placed
                } else {
                    n == o && es == placed
                }
            }
        },
        None => n == o && es.len() == 0,
    }
}

/// Each of `ps` announced to the player `to` as already in the game.
pub open spec fn joined_notices(b: BroadcasterView, to: Seq<char>, ps: Seq<PlayerView>) -> Seq<
    EffectView,
> {
    ps.map_values(
        |q: PlayerView| deliver(b.player_recipients(to), MessageView::PlayerJoined { player: q }),
    )
}

/// The players of `lobby` in `m`, none when there is no such lobby.
pub open spec fn lobby_players(m: ManagerView, lobby: Seq<char>) -> Seq<PlayerView> {
    if m.has(lobby) {
        m.lobby(lobby).players
    } else {
        Seq::empty()
    }
}

/// `m` after `p` joined `lobby`, if the lobby has room.
pub open spec fn manager_joined(m: ManagerView, lobby: Seq<char>, p: PlayerView) -> ManagerView {
    if m.has(lobby) && m.lobby(lobby).has_room() {
        m.with_lobby(lobby, m.lobby(lobby).with_player(p))
    } else {
        m
    }
}

/// A player joins the deathmatch: it learns who is there and that it is
/// welcome, the others learn that it came, and the lobby sees the scoreboard.
pub open spec fn join_done(
    o: HandlerView,
    n: HandlerView,
    pid: Seq<char>,
    name: Seq<char>,
    es: Seq<EffectView>,
) -> bool {
    let dm = o.manager.deathmatch_lobby_id.unwrap();
    let p = PlayerView::spawned(pid, name, join_position());
    let existing = lobby_players(o.manager, dm);
    let b = o.broadcaster.joined(dm, pid);
    &&& n == (HandlerView {
        manager: manager_joined(o.manager, dm, p),
        broadcaster: b,
        player_lobbies: o.assigned(pid, dm),
    })
    &&& es.len() == existing.len() + 3
    &&& es.take(existing.len() + 2int) == joined_notices(o.broadcaster, pid, existing) + seq![
        deliver(
            b.player_recipients(pid),
            MessageView::Welcome { player_id: pid, lobby_id: dm, game_mode: "deathmatch"@ },
        ),
        deliver(b.lobby_recipients(dm, Some(pid)), MessageView::PlayerJoined { player: p }),
    ]
    &&& is_scoreboard_delivery(n.broadcaster, n.manager, dm, es.last())
}

/// A player leaves its lobby for good: the lobby learns it and sees the new
/// team lists and scoreboard.
pub open spec fn disconnect_done(o: HandlerView, n: HandlerView, pid: Seq<char>, es: Seq<EffectView>) -> bool {
    match o.lobby_of_player(pid) {
        Some(l) => {
            let tu = team_update_effects(n.broadcaster, n.manager, l);
            &&& n == (HandlerView {
                manager: o.manager.after_leaving(l, pid),
                broadcaster: o.broadcaster.left(l, pid),
                player_lobbies: o.unassigned(pid),
            })
            &&& es.len() == tu.len() + 2
            &&& es.take(tu.len() + 1int) == seq![
                deliver(n.broadcaster.lobby_recipients(l, None), MessageView::PlayerLeft { player_id: pid }),
            ] + tu
            &&& is_scoreboard_delivery(n.broadcaster, n.manager, l, es.last())
        },
        None => n == o && es.len() == 0,
    }
}


/// The lobbies after the team-selection lobby `team` was sought in `m`: the
/// current one while it takes players, else a new one opened under `team`
/// at instant `at`.
pub open spec fn selection_sought(m: ManagerView, team: Seq<char>, at: Instant) -> ManagerView {
    if m.selection_open() {
        m
    } else {
        ManagerView {
            team_selection_lobby_id: Some(team),
            ..m.inserted(LobbyView::opened(team, GameMode::TeamVsTeam, at))
        }
    }
}

/// A player asks for a team game: it leaves its lobby, whose players learn
/// it and see the scoreboard, and joins the team-selection lobby, which sees
/// the new team lists.
pub open spec fn create_team_lobby_done(
    o: HandlerView,
    n: HandlerView,
    pid: Seq<char>,
    name: Seq<char>,
    es: Seq<EffectView>,
) -> bool {
    let old_lobby = o.lobby_of_player(pid);
    let m1 = match old_lobby {
        Some(l) => o.manager.after_leaving(l, pid),
        None => o.manager,
    };
    let b1 = match old_lobby {
        Some(l) => o.broadcaster.left(l, pid),
        None => o.broadcaster,
    };
    let team = n.manager.team_selection_lobby_id.unwrap();
    let m2 = selection_sought(m1, team, n.manager.lobby(team).created_at);
    let b2 = b1.joined(team, pid);
    let p = PlayerView::spawned(pid, name, join_position());
    let tail = seq![
        deliver(b2.player_recipients(pid), MessageView::TeamLobbyCreated { lobby_id: team }),
    ] + team_update_effects(b2, n.manager, team);
    &&& n.manager.team_selection_lobby_id is Some
    &&& m1.selection_open() ==> m1.team_selection_lobby_id == Some(team)
    &&& n == (HandlerView {
        manager: manager_joined(m2, team, p),
        broadcaster: b2,
        player_lobbies: o.assigned(pid, team),
    })
    &&& match old_lobby {
        Some(l) => {
            &&& es.len() == tail.len() + 2
            &&& es[0] == deliver(b1.lobby_recipients(l, None), MessageView::PlayerLeft { player_id: pid })
            &&& is_scoreboard_delivery(b1, m1, l, es[1])
            &&& es.skip(2) == tail
        },
        None => es == tail,
    }
}


/// What the player `p` learns of the others among the first `k` of `ps` as
/// a team game starts: each of them, as joined.
pub open spec fn peers_for(b: BroadcasterView, ps: Seq<PlayerView>, p: PlayerView, k: int) -> Seq<
    EffectView,
>
    decreases k,
{
    if k <= 0 {
        Seq::empty()
    } else {
        peers_for(b, ps, p, k - 1) + if ps[k - 1].id != p.id {
            seq![
                deliver(b.player_recipients(p.id), MessageView::PlayerJoined { player: ps[k - 1] }),
            ]
        } else {
            Seq::empty()
        }
    }
}

/// What each of the first `k` of `ps` learns of the others as a team game
/// starts.
pub open spec fn peer_notices(b: BroadcasterView, ps: Seq<PlayerView>, k: int) -> Seq<EffectView>
    decreases k,
{
    if k <= 0 {
        Seq::empty()
    } else {
        peer_notices(b, ps, k - 1) + peers_for(b, ps, ps[k - 1], ps.len() as int)
    }
}

/// The bomb, sent to its carrier, if there is one.
pub open spec fn bomb_handout(b: BroadcasterView, carrier: Option<Seq<char>>) -> Seq<EffectView> {
    match carrier {
        Some(c) => seq![deliver(b.player_recipients(c), MessageView::GiveBomb { player_id: c })],
        None => Seq::empty(),
    }
}

/// A player starts the game of its lobby: each player learns of the others,
/// the lobby learns that the first round starts, sees every player at its
/// spawn point and the scoreboard, and the carrier gets the bomb.
pub open spec fn start_game_done(o: HandlerView, n: HandlerView, pid: Seq<char>, es: Seq<EffectView>) -> bool {
    match o.lobby_of_player(pid) {
        Some(l) => {
            let before = o.manager.lobby(l);
            let after = n.manager.lobby(l);
            if o.manager.has(l) && before.can_start_game() {
                let b = o.broadcaster;
                let head = peer_notices(b, after.players, after.players.len() as int) + seq![
                    deliver(b.lobby_recipients(l, None), MessageView::GameStarted { game_mode: "team"@ }),
                    deliver(
                        b.lobby_recipients(l, None),
                        MessageView::RoundStart {
                            round_number: 1,
                            buy_time: BUY_TIME_SECS as int,
                            orange_score: 0,
                            red_score: 0,
                            attacking_team: after.attacking_team.name(),
                        },
                    ),
                ] + delivered(crate::announcements::respawn_notices(b, l, after.players))
                    + bomb_handout(b, after.bomb_carrier_id);
                &&& n.manager.has(l)
                &&& exists|seed: usize|
                    after == before.started(seed, after.build_phase_start.unwrap())
                &&& n == o.with_manager(o.manager.with_lobby(l, after))
                &&& es.len() == head.len() + 1
                &&& es.take(head.len() as int) == head
                &&& is_scoreboard_delivery(n.broadcaster, n.manager, l, es.last())
            } else {
                n == o && es.len() == 0
            }
        },
        None => n == o && es.len() == 0,
    }
}


/// The winner of a match that ended in the lobby `l`, as announced.
pub open spec fn match_winner_name(l: LobbyView) -> Seq<char> {
    if l.orange_score >= crate::lobby::ROUND_WINS_TO_WIN_MATCH {
        "orange"@
    } else {
        "red"@
    }
}

/// A round of the lobby `l` is over, won by `w` for `reason`, starting from
/// the lobbies `m` and ending at `nm`; unless `already_ended`, it is ended
/// first. The lobby learns the result and the scores, each player its money;
/// then either the match's winner is announced, once, or the next round is
/// to start after the pause.
pub open spec fn finish_done(
    b: BroadcasterView,
    m: ManagerView,
    nm: ManagerView,
    l: Seq<char>,
    w: TeamColor,
    reason: Seq<char>,
    already_ended: bool,
    es: Seq<EffectView>,
) -> bool {
    let ended = if !already_ended && m.has(l) {
        m.with_lobby(l, m.lobby(l).round_ended(w, nm.lobby(l).round_end_time.unwrap()))
    } else {
        m
    };
    let el = ended.lobby(l);
    let head = seq![
        deliver(
            b.lobby_recipients(l, None),
            MessageView::RoundEnd {
                winner: w.name(),
                reason,
                orange_score: if ended.has(l) {
                    el.orange_score
                } else {
                    0
                },
                red_score: if ended.has(l) {
                    el.red_score
                } else {
                    0
                },
            },
        ),
    ] + delivered(crate::announcements::money_updates(b, lobby_players(ended, l)));
    if ended.has(l) && el.game_state == GameState::MatchEnd {
        if !el.match_end_announced {
            &&& nm == ended.with_lobby(l, LobbyView { match_end_announced: true, ..el })
            &&& es == head + seq![
                deliver(b.lobby_recipients(l, None), MessageView::MatchEnd { winner: match_winner_name(el) }),
            ]
        } else {
            nm == ended && es == head
        }
    } else {
        nm == ended && es == head + seq![EffectView::RestartRoundLater { lobby_id: l }]
    }
}

/// A defender close to the planted bomb defuses it: the lobby learns it,
/// and the round is over, won by the defenders.
pub open spec fn defuse_done(
    o: HandlerView,
    n: HandlerView,
    pid: Seq<char>,
    within_reach: bool,
    es: Seq<EffectView>,
) -> bool {
    match o.lobby_of_player(pid) {
        Some(l) => {
            let before = o.manager.lobby(l);
            if o.manager.has(l) && before.can_defuse(pid, within_reach) {
                let defused = o.manager.with_lobby(
                    l,
                    before.defused(n.manager.lobby(l).round_end_time.unwrap()),
                );
                &&& n == o.with_manager(n.manager)
                &&& es.len() >= 1
                &&& es[0] == deliver(
                    o.broadcaster.lobby_recipients(l, None),
                    MessageView::BombDefused { player_id: pid },
                )
                &&& finish_done(
                    o.broadcaster,
                    defused,
                    n.manager,
                    l,
                    before.defending_team(),
                    "Bomb Defused"@,
                    true,
                    es.skip(1),
                )
            } else {
                n == o && es.len() == 0
            }
        },
        None => n == o && es.len() == 0,
    }
}

/// A sequence of effects that begins with `pre` is `pre`, then the rest.
proof fn lemma_effects_split(all: Seq<EffectView>, pre: Seq<EffectView>, start: int)
    requires
        0 <= start <= pre.len() <= all.len(),
        all.take(pre.len() as int) == pre,
    ensures
        all.skip(start) == pre.skip(start) + all.skip(pre.len() as int),
        all.take(start) == pre.take(start),
{
    assert forall|i: int| 0 <= i < pre.len() implies all[i] == pre[i] by {
        assert(all.take(pre.len() as int)[i] == all[i]);
    }
    assert(all.skip(start) =~= pre.skip(start) + all.skip(pre.len() as int));
    assert(all.take(start) =~= pre.take(start));
}


/// The name of the player `id` among `ps`, or `"Unknown"`.
pub open spec fn name_or_unknown(ps: Seq<PlayerView>, id: Seq<char>) -> Seq<char> {
    if has_player(ps, id) {
        player_of(ps, id).name
    } else {
        "Unknown"@
    }
}

/// The lobby `l` after its player `target` took a hit at instant `at`.
pub open spec fn struck(l: LobbyView, target: Seq<char>, at: Instant) -> LobbyView {
    LobbyView {
        players: update_player(l.players, target, |p: PlayerView| p.hit(HIT_DAMAGE as int, at)),
        ..l
    }
}

/// The lobby `l` after `shooter` was credited with a kill.
pub open spec fn credited(l: LobbyView, shooter: Seq<char>) -> LobbyView {
    LobbyView { players: update_player(l.players, shooter, |p: PlayerView| p.with_kill()), ..l }
}

/// The lobby `l` after the dead `target` lost the bomb, if it carried it.
pub open spec fn bomb_lost(l: LobbyView, target: Seq<char>) -> LobbyView {
    if l.can_drop(target) {
        l.dropped(target)
    } else {
        l
    }
}

/// What a kill announces in the lobby `lobby`, whose state once the kill
/// was credited is `scored`: the killer's money to the killer, the death to
/// the lobby, and where the bomb fell, if the dead player carried it.
pub open spec fn kill_notices(
    b: BroadcasterView,
    lobby: Seq<char>,
    scored: LobbyView,
    shooter: Seq<char>,
    target: Seq<char>,
) -> Seq<EffectView> {
    (if has_player(scored.players, shooter) {
        seq![
            deliver(
                b.player_recipients(shooter),
                MessageView::MoneyUpdate {
                    player_id: shooter,
                    money: player_of(scored.players, shooter).money,
                },
            ),
        ]
    } else {
        Seq::empty()
    }) + seq![
        deliver(
            b.lobby_recipients(lobby, None),
            MessageView::PlayerDied {
                player_id: target,
                killer_id: shooter,
                victim_name: name_or_unknown(scored.players, target),
                killer_name: name_or_unknown(scored.players, shooter),
            },
        ),
    ] + if scored.can_drop(target) {
        let spot = scored.drop_spot(target);
        seq![
            deliver(
                b.lobby_recipients(lobby, None),
                MessageView::BombDropped { position_x: spot.0, position_y: spot.1, position_z: spot.2 },
            ),
        ]
    } else {
        Seq::empty()
    }
}

/// A hit of `shooter` on `target` in the lobby `l`, landed at instant `at`.
/// One that does not kill is announced with what it left. A kill is
/// credited and announced, the bomb falls where the dead carrier stood, the
/// lobby sees the scoreboard, and a team eliminated ends the round.
pub open spec fn hit_landed(
    o: HandlerView,
    n: HandlerView,
    l: Seq<char>,
    shooter: Seq<char>,
    target: Seq<char>,
    at: Instant,
    es: Seq<EffectView>,
) -> bool {
    let b = o.broadcaster;
    let before = o.manager.lobby(l);
    let hit = struck(before, target, at);
    let victim = player_of(hit.players, target);
    if !player_of(before.players, target).hit_kills(HIT_DAMAGE as int) {
        &&& n == o.with_manager(o.manager.with_lobby(l, hit))
        &&& es == seq![
            deliver(
                b.lobby_recipients(l, None),
                MessageView::PlayerHit {
                    player_id: target,
                    damage: HIT_DAMAGE as int,
                    health: victim.health,
                    shield: victim.shield,
                },
            ),
        ]
    } else {
        let scored = credited(hit, shooter);
        let m = o.manager.with_lobby(l, bomb_lost(scored, target));
        let head = kill_notices(b, l, scored, shooter, target);
        &&& n == o.with_manager(n.manager)
        &&& es.len() > head.len()
        &&& es.take(head.len() as int) == head
        &&& is_scoreboard_delivery(b, m, l, es[head.len() as int])
        &&& match bomb_lost(scored, target).elimination_winner() {
            Some(w) => finish_done(
                b,
                m,
                n.manager,
                l,
                w,
                "Team Eliminated"@,
                false,
                es.skip(head.len() + 1int),
            ),
            None => n.manager == m && es.len() == head.len() + 1,
        }
    }
}

/// A hit reported by `shooter` on `target`: refused when a wall stands
/// between them or the target is not a living player of the shooter's lobby.
pub open spec fn hit_done(
    o: HandlerView,
    n: HandlerView,
    shooter: Seq<char>,
    target: Seq<char>,
    shot_blocked: bool,
    es: Seq<EffectView>,
) -> bool {
    match o.lobby_of_player(shooter) {
        Some(l) => {
            let before = o.manager.lobby(l);
            if !shot_blocked && o.manager.has(l) && has_player(before.players, target) && player_of(
                before.players,
                target,
            ).alive {
                exists|at: Instant| #[trigger] hit_landed(o, n, l, shooter, target, at, es)
            } else {
                n == o && es.len() == 0
            }
        },
        None => n == o && es.len() == 0,
    }
}


/// After the pause that follows a round of the lobby `l`: a match that
/// ended has its winner announced, once; a lobby that is no longer waiting
/// for its next round (the periodic tick started it) is left as it is;
/// otherwise the next round starts, the map is reset at halftime, and the lobby learns the round's start,
/// sees every player respawned, each player gets its money and the carrier
/// the bomb.
pub open spec fn resume_done(o: HandlerView, n: HandlerView, l: Seq<char>, es: Seq<EffectView>) -> bool {
    let b = o.broadcaster;
    let before = o.manager.lobby(l);
    if o.manager.has(l) && before.game_state == GameState::MatchEnd {
        if !before.match_end_announced {
            &&& n == o.with_manager(
                o.manager.with_lobby(l, LobbyView { match_end_announced: true, ..before }),
            )
            &&& es == seq![
                deliver(b.lobby_recipients(l, None), MessageView::MatchEnd { winner: match_winner_name(before) }),
            ]
        } else {
            n == o && es.len() == 0
        }
    } else if o.manager.has(l) && before.game_state != GameState::RoundEnd {
        n == o && es.len() == 0
    } else {
        let present = o.manager.has(l);
        let after = n.manager.lobby(l);
        let reset = if present && before.next_round_switches() {
            seq![
                EffectView::ClearStructures { lobby_id: l },
                deliver(b.lobby_recipients(l, None), MessageView::MapReset),
            ]
        } else {
            Seq::empty()
        };
        let players = lobby_players(n.manager, l);
        &&& n == o.with_manager(n.manager)
        &&& present ==> {
            &&& n.manager.has(l)
            &&& n.manager == o.manager.with_lobby(l, after)
            &&& exists|seed: usize| after == before.next_round(seed, after.build_phase_start.unwrap())
        }
        &&& !present ==> n.manager == o.manager
        &&& es == reset + seq![
            deliver(
                b.lobby_recipients(l, None),
                MessageView::RoundStart {
                    round_number: if present {
                        after.round_number
                    } else {
                        0
                    },
                    buy_time: BUY_TIME_SECS as int,
                    orange_score: if present {
                        after.orange_score
                    } else {
                        0
                    },
                    red_score: if present {
                        after.red_score
                    } else {
                        0
                    },
                    attacking_team: if present {
                        after.attacking_team.name()
                    } else {
                        "red"@
                    },
                },
            ),
        ] + delivered(crate::announcements::respawn_notices(b, l, players)) + delivered(
            crate::announcements::money_updates(b, players),
        ) + bomb_handout(
            b,
            if present {
                after.bomb_carrier_id
            } else {
                None
            },
        )
    }
}


/// Whether handling `msg` can advance a score, a round number, a kill count
/// or take health.
pub open spec fn advances_counters(msg: ClientMessage) -> bool {
    ||| msg is Hit
    ||| msg is DefuseBomb
    ||| msg is StartTeamGame
}

/// What handling `msg` from the player `pid` does, `facts` deciding what
/// geometry decides.
pub open spec fn message_handled(
    o: HandlerView,
    n: HandlerView,
    pid: Seq<char>,
    msg: ClientMessage,
    facts: GeometryFacts,
    es: Seq<EffectView>,
) -> bool {
    match msg {
        ClientMessage::Join { name } => join_done(o, n, pid, name@, es),
        ClientMessage::CreateTeamLobby { name } => create_team_lobby_done(o, n, pid, name@, es),
        ClientMessage::JoinTeam { team } => join_team_done(o, n, pid, team@, es),
        ClientMessage::StartTeamGame => start_game_done(o, n, pid, es),
        ClientMessage::Move { x, y, z, rotation_x, rotation_y } => move_done(
            o,
            n,
            pid,
            x,
            y,
            z,
            rotation_x,
            rotation_y,
            es,
        ),
        ClientMessage::Shoot { start_x, start_y, start_z, target_x, target_y, target_z } => shoot_done(
            o,
            n,
            pid,
            (start_x, start_y, start_z),
            (target_x, target_y, target_z),
            es,
        ),
        ClientMessage::Hit { target_player_id, killed } => hit_done(
            o,
            n,
            pid,
            target_player_id@,
            facts.shot_blocked,
            es,
        ),
        ClientMessage::Respawn => respawn_done(o, n, pid, es),
        ClientMessage::PlantBomb { position_x, position_z } => plant_done(
            o,
            n,
            pid,
            position_x,
            position_z,
            es,
        ),
        ClientMessage::DefuseBomb => defuse_done(o, n, pid, facts.bomb_within_defuse_reach, es),
        ClientMessage::DropBomb => drop_done(o, n, pid, es),
        ClientMessage::PickupBomb => pickup_done(o, n, pid, facts.bomb_within_pickup_reach, es),
        ClientMessage::PlaceStructure { structure_type, x, y, z } => place_done(
            o,
            n,
            pid,
            structure_type@,
            (x, y, z),
            es,
        ),
        ClientMessage::WallHit { wall_x, wall_z, local_x, world_y, radius } => wall_hit_done(
            o,
            n,
            pid,
            (wall_x, wall_z, local_x, world_y, radius),
            facts.wall_hole_added,
            es,
        ),
    }
}

impl MessageHandler {
    pub fn new(lobby_manager: LobbyManager, message_broadcaster: MessageBroadcaster) -> (h: Self)
        ensures
            lobby_manager@.wf() && message_broadcaster.wf() && lobby_manager@.deathmatch_lobby_id is Some
                ==> h@.wf(),
            h@.manager == lobby_manager@,
            h@.broadcaster == message_broadcaster@,
            h@.player_lobbies == Seq::<(Seq<char>, Seq<char>)>::empty(),
    {
        let h = MessageHandler {
            lobby_manager,
            message_broadcaster,
            spawn_system: SpawnSystem::new(),
            player_lobbies: Vec::new(),
        };
        assert(h@.player_lobbies =~= Seq::<(Seq<char>, Seq<char>)>::empty());
        h
    }

    /// The index of the entry of `player_id` in the player table, if any.
    fn find_assignment(&self, player_id: &String) -> (r: Option<usize>)
        requires
            self@.wf(),
        ensures
            match r {
                Some(i) => {
                    &&& i < self.player_lobbies.len()
                    &&& self@.has_assignment(player_id@)
                    &&& self@.assignment_index(player_id@) == i
                },
                None => !self@.has_assignment(player_id@),
            },
    {
        let mut i: usize = 0;
        while i < self.player_lobbies.len()
            invariant
                self@.wf(),
                i <= self.player_lobbies.len(),
                forall|j: int| 0 <= j < i ==> self@.player_lobbies[j].0 != player_id@,
            decreases self.player_lobbies.len() - i,
        {
            if self.player_lobbies[i].0 == *player_id {
                proof {
                    assert(self@.player_lobbies[i as int].0 == player_id@);
                    assert(self@.has_assignment(player_id@));
                    let k = self@.assignment_index(player_id@);
                    assert(self@.player_lobbies[k].0 == self@.player_lobbies[i as int].0);
                }
                return Some(i);
            }
            i = i + 1;
        }
        proof {
            if self@.has_assignment(player_id@) {
                let k = choose|k: int|
                    0 <= k < self@.player_lobbies.len() && #[trigger] self@.player_lobbies[k].0
                        == player_id@;
                assert(self@.player_lobbies[k].0 == player_id@);
            }
        }
        None
    }

    /// The lobby `player_id` is in, if any.
    pub fn lobby_for(&self, player_id: &str) -> (lobby: Option<String>)
        requires
            self@.wf(),
        ensures
            crate::player::opt_text(lobby) == self@.lobby_of_player(player_id@),
    {
        let id = owned(player_id);
        match self.find_assignment(&id) {
            Some(i) => Some(self.player_lobbies[i].1.clone()),
            None => None,
        }
    }

    /// Puts `player_id` in `lobby_id` in the player table.
    fn assign(&mut self, player_id: &str, lobby_id: &str)
        requires
            old(self)@.wf(),
        ensures
            final(self)@.wf(),
            final(self)@ == (HandlerView {
                player_lobbies: old(self)@.assigned(player_id@, lobby_id@),
                ..old(self)@
            }),
    {
        let id = owned(player_id);
        let lobby = owned(lobby_id);
        let ghost o = self@;
        match self.find_assignment(&id) {
            Some(i) => {
                self.player_lobbies.set(i, (id, lobby));
                assert(self@.player_lobbies =~= o.player_lobbies.update(i as int, (player_id@, lobby_id@)));
                proof {
                    let n = self@.player_lobbies;
                    assert forall|a: int, b: int|
                        0 <= a < n.len() && 0 <= b < n.len() && #[trigger] n[a].0 == #[trigger] n[b].0 implies a
                        == b by {
                        assert(n[a].0 == o.player_lobbies[a].0);
                        assert(n[b].0 == o.player_lobbies[b].0);
                    }
                }
            },
            None => {
                self.player_lobbies.push((id, lobby));
                assert(self@.player_lobbies =~= o.player_lobbies.push((player_id@, lobby_id@)));
                proof {
                    let n = self@.player_lobbies;
                    assert forall|a: int, b: int|
                        0 <= a < n.len() && 0 <= b < n.len() && #[trigger] n[a].0 == #[trigger] n[b].0 implies a
                        == b by {
                        if a < o.player_lobbies.len() && b == o.player_lobbies.len() {
                            assert(o.player_lobbies[a].0 == player_id@);
                        }
                        if b < o.player_lobbies.len() && a == o.player_lobbies.len() {
                            assert(o.player_lobbies[b].0 == player_id@);
                        }
                    }
                }
            },
        }
        assert(self@ =~= HandlerView { player_lobbies: o.assigned(player_id@, lobby_id@), ..o });
    }

    /// Takes `player_id` out of the player table. Returns the lobby it was in.
    fn unassign(&mut self, player_id: &str) -> (lobby: Option<String>)
        requires
            old(self)@.wf(),
        ensures
            final(self)@.wf(),
            crate::player::opt_text(lobby) == old(self)@.lobby_of_player(player_id@),
            final(self)@ == (HandlerView {
                player_lobbies: old(self)@.unassigned(player_id@),
                ..old(self)@
            }),
    {
        let id = owned(player_id);
        let ghost o = self@;
        match self.find_assignment(&id) {
            Some(i) => {
                let (_, lobby) = self.player_lobbies.remove(i);
                assert(self@.player_lobbies =~= o.player_lobbies.remove(i as int));
                proof {
                    let n = self@.player_lobbies;
                    assert forall|a: int, b: int|
                        0 <= a < n.len() && 0 <= b < n.len() && #[trigger] n[a].0 == #[trigger] n[b].0 implies a
                        == b by {
                        let a0 = if a < i { a } else { a + 1 };
                        let b0 = if b < i { b } else { b + 1 };
                        assert(n[a] == o.player_lobbies[a0]);
                        assert(n[b] == o.player_lobbies[b0]);
                    }
                }
                assert(self@ =~= HandlerView { player_lobbies: o.unassigned(player_id@), ..o });
                Some(lobby)
            },
            None => None,
        }
    }

    /// The scoreboard of `lobby_id`, sent to the lobby.
    fn broadcast_scoreboard(&self, lobby_id: &str, out: &mut Vec<Effect>)
        requires
            self@.wf(),
        ensures
            effects_view(final(out)@).len() == effects_view(old(out)@).len() + 1,
            effects_view(final(out)@).take(old(out)@.len() as int) == effects_view(old(out)@),
            is_scoreboard_delivery(
                self@.broadcaster,
                self@.manager,
                lobby_id@,
                effects_view(final(out)@).last(),
            ),
    {
        let rows = self.lobby_manager.get_lobby_scoreboard(lobby_id);
        let msg = ServerMessage::ScoreboardUpdate { players: rows };
        let d = self.message_broadcaster.broadcast_to_lobby(lobby_id, msg, None);
        let ghost before = effects_view(out@);
        out.push(Effect::Deliver(d));
        assert(effects_view(out@) =~= before.push(effects_view(out@).last()));
        assert(effects_view(out@).take(old(out)@.len() as int) =~= before);
    }

    /// The team lists of `lobby_id`, sent to the lobby.
    fn broadcast_team_update(&self, lobby_id: &str, out: &mut Vec<Effect>)
        requires
            self@.wf(),
        ensures
            effects_view(final(out)@) == effects_view(old(out)@) + team_update_effects(
                self@.broadcaster,
                self@.manager,
                lobby_id@,
            ),
    {
        let ghost before = effects_view(out@);
        match self.lobby_manager.get_team_data(lobby_id) {
            Some((orange_team, red_team)) => {
                let orange_players = to_team_players(orange_team);
                let red_players = to_team_players(red_team);
                let can_start = orange_players.len() >= 1 && red_players.len() >= 1;
                let msg = ServerMessage::TeamUpdate {
                    orange_team: orange_players,
                    red_team: red_players,
                    can_start,
                };
                let d = self.message_broadcaster.broadcast_to_lobby(lobby_id, msg, None);
                out.push(Effect::Deliver(d));
                assert(effects_view(out@) =~= before + team_update_effects(
                    self@.broadcaster,
                    self@.manager,
                    lobby_id@,
                ));
            },
            None => {
                assert(effects_view(out@) =~= before + team_update_effects(
                    self@.broadcaster,
                    self@.manager,
                    lobby_id@,
                ));
            },
        }
    }
}

/// The team list entries for (id, name) pairs.
fn to_team_players(pairs: Vec<(String, String)>) -> (ps: Vec<TeamPlayer>)
    ensures
        crate::messages::team_players_view(ps@) == team_players(pairs_view(pairs@)),
{
    let mut ps: Vec<TeamPlayer> = Vec::new();
    let ghost all = pairs_view(pairs@);
    let mut k: usize = 0;
    assert(crate::messages::team_players_view(ps@) =~= team_players(all.take(0)));
    while k < pairs.len()
        invariant
            all == pairs_view(pairs@),
            k <= pairs.len(),
            crate::messages::team_players_view(ps@) == team_players(all.take(k as int)),
        decreases pairs.len() - k,
    {
        let entry = TeamPlayer { id: pairs[k].0.clone(), name: pairs[k].1.clone() };
        assert(entry@ == TeamPlayerView { id: all[k as int].0, name: all[k as int].1 });
        let ghost before = crate::messages::team_players_view(ps@);
        ps.push(entry);
        assert(crate::messages::team_players_view(ps@) =~= before.push(entry@));
        assert(all.take(k + 1) =~= all.take(k as int).push(all[k as int]));
        assert(crate::messages::team_players_view(ps@) =~= team_players(all.take(k + 1)));
        k = k + 1;
    }
    assert(all.take(pairs.len() as int) =~= all);
    ps
}


impl MessageHandler {
    fn handle_move(
        &mut self,
        player_id: &str,
        x: u32,
        y: u32,
        z: u32,
        rotation_x: u32,
        rotation_y: u32,
        out: &mut Vec<Effect>,
    )
        requires
            old(self)@.wf(),
        ensures
            final(self)@.wf(),
            move_done(
                old(self)@,
                final(self)@,
                player_id@,
                x,
                y,
                z,
                rotation_x,
                rotation_y,
                effects_view(final(out)@).skip(old(out)@.len() as int),
            ),
            effects_view(final(out)@).take(old(out)@.len() as int) == effects_view(old(out)@),
    {
        let ghost start = effects_view(out@);
        let ghost o = self@;
        match self.lobby_for(player_id) {
            Some(lobby_id) => {
                self.lobby_manager.update_player_position(
                    lobby_id.as_str(),
                    player_id,
                    x,
                    y,
                    z,
                    rotation_x,
                    rotation_y,
                );
                let msg = ServerMessage::PlayerMoved {
                    player_id: owned(player_id),
                    x,
                    y,
                    z,
                    rotation_x,
                    rotation_y,
                };
                let d = self.message_broadcaster.broadcast_to_lobby(lobby_id.as_str(), msg, Some(player_id));
                let ghost e = Effect::Deliver(d)@;
                out.push(Effect::Deliver(d));
                assert(self@ =~= o.with_manager(self@.manager));
                assert(effects_view(out@).skip(start.len() as int) =~= seq![e]);
            },
            None => {
                assert(self@ =~= o);
                assert(effects_view(out@).skip(start.len() as int) =~= Seq::<EffectView>::empty());
            },
        }
        assert(effects_view(out@).take(old(out)@.len() as int) =~= start);
    }
}


impl MessageHandler {
    fn handle_shoot(
        &self,
        player_id: &str,
        start: (u32, u32, u32),
        target: (u32, u32, u32),
        out: &mut Vec<Effect>,
    )
        requires
            self@.wf(),
        ensures
            shoot_done(
                self@,
                self@,
                player_id@,
                start,
                target,
                effects_view(final(out)@).skip(old(out)@.len() as int),
            ),
            effects_view(final(out)@).take(old(out)@.len() as int) == effects_view(old(out)@),
    {
        let ghost start_out = effects_view(out@);
        match self.lobby_for(player_id) {
            Some(lobby_id) => {
                let msg = ServerMessage::PlayerShot {
                    shooter_id: owned(player_id),
                    start_x: start.0,
                    start_y: start.1,
                    start_z: start.2,
                    target_x: target.0,
                    target_y: target.1,
                    target_z: target.2,
                };
                let d = self.message_broadcaster.broadcast_to_lobby(lobby_id.as_str(), msg, Some(player_id));
                let ghost e = Effect::Deliver(d)@;
                out.push(Effect::Deliver(d));
                assert(effects_view(out@).skip(start_out.len() as int) =~= seq![e]);
            },
            None => {
                assert(effects_view(out@).skip(start_out.len() as int) =~= Seq::<EffectView>::empty());
            },
        }
        assert(effects_view(out@).take(old(out)@.len() as int) =~= start_out);
    }

    fn handle_wall_hit(
        &self,
        player_id: &str,
        hole: (u32, u32, u32, u32, u32),
        hole_added: bool,
        out: &mut Vec<Effect>,
    )
        requires
            self@.wf(),
        ensures
            wall_hit_done(
                self@,
                self@,
                player_id@,
                hole,
                hole_added,
                effects_view(final(out)@).skip(old(out)@.len() as int),
            ),
            effects_view(final(out)@).take(old(out)@.len() as int) == effects_view(old(out)@),
    {
        let ghost start_out = effects_view(out@);
        match self.lobby_for(player_id) {
            Some(lobby_id) => {
                if hole_added {
                    let msg = ServerMessage::WallHole {
                        wall_x: hole.0,
                        wall_z: hole.1,
                        local_x: hole.2,
                        world_y: hole.3,
                        radius: hole.4,
                    };
                    let d = self.message_broadcaster.broadcast_to_lobby(lobby_id.as_str(), msg, None);
                    let ghost e = Effect::Deliver(d)@;
                    out.push(Effect::Deliver(d));
                    assert(effects_view(out@).skip(start_out.len() as int) =~= seq![e]);
                } else {
                    assert(effects_view(out@).skip(start_out.len() as int) =~= Seq::<EffectView>::empty());
                }
            },
            None => {
                assert(effects_view(out@).skip(start_out.len() as int) =~= Seq::<EffectView>::empty());
            },
        }
        assert(effects_view(out@).take(old(out)@.len() as int) =~= start_out);
    }

    fn handle_join_team(&mut self, player_id: &str, team: &str, out: &mut Vec<Effect>)
        requires
            old(self)@.wf(),
        ensures
            final(self)@.wf(),
            join_team_done(
                old(self)@,
                final(self)@,
                player_id@,
                team@,
                effects_view(final(out)@).skip(old(out)@.len() as int),
            ),
            effects_view(final(out)@).take(old(out)@.len() as int) == effects_view(old(out)@),
    {
        let ghost start_out = effects_view(out@);
        let ghost o = self@;
        proof {
            reveal_strlit("orange");
            reveal_strlit("red");
        }
        match self.lobby_for(player_id) {
            Some(lobby_id) => {
                let color = if same_text(team, "orange") {
                    Some(TeamColor::Orange)
                } else if same_text(team, "red") {
                    Some(TeamColor::Red)
                } else {
                    None
                };
                assert(color == team_color_named(team@));
                match color {
                    Some(c) => {
                        let joined = self.lobby_manager.join_team(lobby_id.as_str(), player_id, c);
                        assert(self@ =~= o.with_manager(self@.manager));
                        if joined {
                            self.broadcast_team_update(lobby_id.as_str(), out);
                            assert(effects_view(out@).skip(start_out.len() as int) =~= team_update_effects(
                                self@.broadcaster,
                                self@.manager,
                                lobby_id@,
                            ));
                        } else {
                            assert(effects_view(out@).skip(start_out.len() as int) =~= Seq::<EffectView>::empty());
                        }
                    },
                    None => {
                        assert(effects_view(out@).skip(start_out.len() as int) =~= Seq::<EffectView>::empty());
                    },
                }
            },
            None => {
                assert(effects_view(out@).skip(start_out.len() as int) =~= Seq::<EffectView>::empty());
            },
        }
        assert(effects_view(out@).take(old(out)@.len() as int) =~= start_out);
    }

    fn handle_plant_bomb(
        &mut self,
        player_id: &str,
        position_x: Option<u32>,
        position_z: Option<u32>,
        out: &mut Vec<Effect>,
    )
        requires
            old(self)@.wf(),
        ensures
            final(self)@.wf(),
            plant_done(
                old(self)@,
                final(self)@,
                player_id@,
                position_x,
                position_z,
                effects_view(final(out)@).skip(old(out)@.len() as int),
            ),
            effects_view(final(out)@).take(old(out)@.len() as int) == effects_view(old(out)@),
    {
        let ghost start_out = effects_view(out@);
        let ghost o = self@;
        match self.lobby_for(player_id) {
            Some(lobby_id) => {
                match self.lobby_manager.plant_bomb(lobby_id.as_str(), player_id, position_x, position_z) {
                    Some((x, z)) => {
                        let msg = ServerMessage::BombPlanted {
                            player_id: owned(player_id),
                            timer: BOMB_TIMER_SECS as i32,
                            position_x: x,
                            position_z: z,
                        };
                        let d = self.message_broadcaster.broadcast_to_lobby(lobby_id.as_str(), msg, None);
                        let ghost e = Effect::Deliver(d)@;
                        out.push(Effect::Deliver(d));
                        assert(self@ =~= o.with_manager(self@.manager));
                        assert(effects_view(out@).skip(start_out.len() as int) =~= seq![e]);
                    },
                    None => {
                        assert(self@ =~= o);
                        assert(effects_view(out@).skip(start_out.len() as int) =~= Seq::<EffectView>::empty());
                    },
                }
            },
            None => {
                assert(effects_view(out@).skip(start_out.len() as int) =~= Seq::<EffectView>::empty());
            },
        }
        assert(effects_view(out@).take(old(out)@.len() as int) =~= start_out);
    }

    fn handle_drop_bomb(&mut self, player_id: &str, out: &mut Vec<Effect>)
        requires
            old(self)@.wf(),
        ensures
            final(self)@.wf(),
            drop_done(
                old(self)@,
                final(self)@,
                player_id@,
                effects_view(final(out)@).skip(old(out)@.len() as int),
            ),
            effects_view(final(out)@).take(old(out)@.len() as int) == effects_view(old(out)@),
    {
        let ghost start_out = effects_view(out@);
        let ghost o = self@;
        match self.lobby_for(player_id) {
            Some(lobby_id) => {
                match self.lobby_manager.drop_bomb(lobby_id.as_str(), player_id) {
                    Some(position) => {
                        let msg = ServerMessage::BombDropped {
                            position_x: position.0,
                            position_y: position.1,
                            position_z: position.2,
                        };
                        let d = self.message_broadcaster.broadcast_to_lobby(lobby_id.as_str(), msg, None);
                        let ghost e = Effect::Deliver(d)@;
                        out.push(Effect::Deliver(d));
                        assert(self@ =~= o.with_manager(self@.manager));
                        assert(effects_view(out@).skip(start_out.len() as int) =~= seq![e]);
                    },
                    None => {
                        assert(self@ =~= o);
                        assert(effects_view(out@).skip(start_out.len() as int) =~= Seq::<EffectView>::empty());
                    },
                }
            },
            None => {
                assert(effects_view(out@).skip(start_out.len() as int) =~= Seq::<EffectView>::empty());
            },
        }
        assert(effects_view(out@).take(old(out)@.len() as int) =~= start_out);
    }

    fn handle_pickup_bomb(&mut self, player_id: &str, within_reach: bool, out: &mut Vec<Effect>)
        requires
            old(self)@.wf(),
        ensures
            final(self)@.wf(),
            pickup_done(
                old(self)@,
                final(self)@,
                player_id@,
                within_reach,
                effects_view(final(out)@).skip(old(out)@.len() as int),
            ),
            effects_view(final(out)@).take(old(out)@.len() as int) == effects_view(old(out)@),
    {
        let ghost start_out = effects_view(out@);
        let ghost o = self@;
        match self.lobby_for(player_id) {
            Some(lobby_id) => {
                match self.lobby_manager.pickup_bomb(lobby_id.as_str(), player_id, within_reach) {
                    Some(player_name) => {
                        let msg = ServerMessage::BombPickedUp {
                            player_id: owned(player_id),
                            player_name,
                        };
                        let d = self.message_broadcaster.broadcast_to_lobby(lobby_id.as_str(), msg, None);
                        let ghost e = Effect::Deliver(d)@;
                        out.push(Effect::Deliver(d));
                        assert(self@ =~= o.with_manager(self@.manager));
                        assert(effects_view(out@).skip(start_out.len() as int) =~= seq![e]);
                    },
                    None => {
                        assert(self@ =~= o);
                        assert(effects_view(out@).skip(start_out.len() as int) =~= Seq::<EffectView>::empty());
                    },
                }
            },
            None => {
                assert(effects_view(out@).skip(start_out.len() as int) =~= Seq::<EffectView>::empty());
            },
        }
        assert(effects_view(out@).take(old(out)@.len() as int) =~= start_out);
    }

    fn handle_respawn(&mut self, player_id: &str, out: &mut Vec<Effect>)
        requires
            old(self)@.wf(),
        ensures
            final(self)@.wf(),
            respawn_done(
                old(self)@,
                final(self)@,
                player_id@,
                effects_view(final(out)@).skip(old(out)@.len() as int),
            ),
            effects_view(final(out)@).take(old(out)@.len() as int) == effects_view(old(out)@),
    {
        let ghost start_out = effects_view(out@);
        let ghost o = self@;
        match self.lobby_for(player_id) {
            Some(lobby_id) => {
                if !self.lobby_manager.can_respawn(lobby_id.as_str()) {
                    assert(effects_view(out@).skip(start_out.len() as int) =~= Seq::<EffectView>::empty());
                } else {
                    let r = self.lobby_manager.respawn_player(lobby_id.as_str(), player_id);
                    proof {
                        let before = o.manager.lobby(lobby_id@);
                        let after = LobbyView {
                            players: update_player(
                                before.players,
                                player_id@,
                                |p: PlayerView| p.respawned(before.spawn_position(player_id@)),
                            ),
                            ..before
                        };
                        crate::lobby_manager::lemma_with_lobby_lookup(o.manager, lobby_id@, after);
                    }
                    assert(self@ =~= o.with_manager(self@.manager));
                    match r {
                        Some(player) => {
                            let msg = ServerMessage::PlayerRespawned { player };
                            let d = self.message_broadcaster.broadcast_to_lobby(lobby_id.as_str(), msg, None);
                            let ghost e = Effect::Deliver(d)@;
                            out.push(Effect::Deliver(d));
                            assert(effects_view(out@).skip(start_out.len() as int) =~= seq![e]);
                        },
                        None => {
                            assert(effects_view(out@).skip(start_out.len() as int) =~= Seq::<EffectView>::empty());
                        },
                    }
                }
            },
            None => {
                assert(effects_view(out@).skip(start_out.len() as int) =~= Seq::<EffectView>::empty());
            },
        }
        assert(effects_view(out@).take(old(out)@.len() as int) =~= start_out);
    }
}


/// What a structure of `structure_type` costs.
pub fn structure_cost(structure_type: &str) -> (cost: i32)
    ensures
        cost as int == structure_price(structure_type@),
{
    proof {
        reveal_strlit("large");
        reveal_strlit("destructible");
        reveal_strlit("small");
        reveal_strlit("barrier");
    }
    if same_text(structure_type, "large") {
        800
    } else if same_text(structure_type, "destructible") {
        600
    } else if same_text(structure_type, "small") || same_text(structure_type, "barrier") {
        400
    } else {
        0
    }
}

/// Sends `to` a notice for each of `players` that the player is in the game.
fn push_joined_notices(
    b: &MessageBroadcaster,
    to: &str,
    players: &Vec<Player>,
    out: &mut Vec<Effect>,
)
    requires
        b.wf(),
    ensures
        effects_view(final(out)@) == effects_view(old(out)@) + joined_notices(
            b@,
            to@,
            crate::roster::players_view(players@),
        ),
{
    let ghost start = effects_view(out@);
    let ghost all = joined_notices(b@, to@, crate::roster::players_view(players@));
    let mut k: usize = 0;
    assert(effects_view(out@) =~= start + all.take(0));
    while k < players.len()
        invariant
            b.wf(),
            start == effects_view(old(out)@),
            all == joined_notices(b@, to@, crate::roster::players_view(players@)),
            k <= players.len(),
            effects_view(out@) == start + all.take(k as int),
        decreases players.len() - k,
    {
        let msg = ServerMessage::PlayerJoined { player: players[k].snapshot() };
        let d = b.send_to_player(to, msg);
        let e = Effect::Deliver(d);
        assert(e@ == all[k as int]);
        let ghost before = effects_view(out@);
        out.push(e);
        assert(effects_view(out@) =~= before.push(all[k as int]));
        assert(start + all.take(k + 1) =~= (start + all.take(k as int)).push(all[k as int]));
        k = k + 1;
    }
    assert(all.take(players.len() as int) =~= all);
}

impl MessageHandler {
    fn handle_place_structure(
        &mut self,
        player_id: &str,
        structure_type: String,
        pos: (u32, u32, u32),
        out: &mut Vec<Effect>,
    )
        requires
            old(self)@.wf(),
        ensures
            final(self)@.wf(),
            place_done(
                old(self)@,
                final(self)@,
                player_id@,
                structure_type@,
                pos,
                effects_view(final(out)@).skip(old(out)@.len() as int),
            ),
            effects_view(final(out)@).take(old(out)@.len() as int) == effects_view(old(out)@),
    {
        let ghost start_out = effects_view(out@);
        let ghost o = self@;
        match self.lobby_for(player_id) {
            Some(lobby_id) => {
                let cost = structure_cost(structure_type.as_str());
                let ghost mid_out = effects_view(out@);
                if cost > 0 {
                    match self.lobby_manager.get_player(lobby_id.as_str(), player_id) {
                        Some(player) => {
                            if player.money >= cost {
                                let money = player.money - cost;
                                self.lobby_manager.update_player_money(lobby_id.as_str(), player_id, money);
                                let msg = ServerMessage::MoneyUpdate { player_id: owned(player_id), money };
                                let d = self.message_broadcaster.send_to_player(player_id, msg);
                                let ghost e = Effect::Deliver(d)@;
                                out.push(Effect::Deliver(d));
                                assert(self@ =~= o.with_manager(self@.manager));
                                assert(effects_view(out@).skip(start_out.len() as int) =~= seq![e]);
                            } else {
                                assert(effects_view(out@).skip(start_out.len() as int) =~= Seq::<EffectView>::empty());
                                assert(effects_view(out@).take(old(out)@.len() as int) =~= start_out);
                                return;
                            }
                        },
                        None => {},
                    }
                }
                let ghost paid_out = effects_view(out@);
                let x = pos.0;
                let y = pos.1;
                let z = pos.2;
                let add = Effect::AddStructure {
                    lobby_id: lobby_id.clone(),
                    structure_type: structure_type.clone(),
                    x,
                    z,
                    rotation: y,
                };
                out.push(add);
                let msg = ServerMessage::StructurePlaced {
                    player_id: owned(player_id),
                    structure_type,
                    x,
                    y,
                    z,
                };
                let d = self.message_broadcaster.broadcast_to_lobby(lobby_id.as_str(), msg, Some(player_id));
                out.push(Effect::Deliver(d));
                assert(effects_view(out@) =~= paid_out + seq![
                    effects_view(out@)[paid_out.len() as int],
                    effects_view(out@)[paid_out.len() + 1int],
                ]);
                assert(effects_view(out@).skip(start_out.len() as int) =~= paid_out.skip(start_out.len() as int) + seq![
                    effects_view(out@)[paid_out.len() as int],
                    effects_view(out@)[paid_out.len() + 1int],
                ]);
            },
            None => {
                assert(effects_view(out@).skip(start_out.len() as int) =~= Seq::<EffectView>::empty());
            },
        }
        assert(effects_view(out@).take(old(out)@.len() as int) =~= start_out);
    }

    fn handle_join(&mut self, player_id: &str, name: String, out: &mut Vec<Effect>)
        requires
            old(self)@.wf(),
        ensures
            final(self)@.wf(),
            join_done(
                old(self)@,
                final(self)@,
                player_id@,
                name@,
                effects_view(final(out)@).skip(old(out)@.len() as int),
            ),
            effects_view(final(out)@).take(old(out)@.len() as int) == effects_view(old(out)@),
    {
        let ghost start_out = effects_view(out@);
        let ghost o = self@;
        let dm = self.lobby_manager.get_deathmatch_lobby_id();
        let player = Player::new(owned(player_id), name, (BITS_ZERO, BITS_FIVE, BITS_ZERO));
        let ghost p = player@;
        let existing = self.lobby_manager.get_lobby_players(dm.as_str());
        push_joined_notices(&self.message_broadcaster, player_id, &existing, out);
        let ghost notices_out = effects_view(out@);
        let joined = player.snapshot();
        self.lobby_manager.join_lobby(dm.as_str(), player);
        self.assign(player_id, dm.as_str());
        self.message_broadcaster.add_player_to_lobby(dm.as_str(), player_id);
        let welcome = ServerMessage::Welcome {
            player_id: owned(player_id),
            lobby_id: dm.clone(),
            game_mode: owned("deathmatch"),
        };
        let d1 = self.message_broadcaster.send_to_player(player_id, welcome);
        let ghost e1 = Effect::Deliver(d1)@;
        out.push(Effect::Deliver(d1));
        let announce = ServerMessage::PlayerJoined { player: joined };
        let d2 = self.message_broadcaster.broadcast_to_lobby(dm.as_str(), announce, Some(player_id));
        let ghost e2 = Effect::Deliver(d2)@;
        out.push(Effect::Deliver(d2));
        let ghost before_board = effects_view(out@);
        assert(before_board =~= notices_out + seq![e1, e2]);
        assert(notices_out =~= start_out + joined_notices(
            o.broadcaster,
            player_id@,
            lobby_players(o.manager, dm@),
        ));
        assert(before_board.skip(start_out.len() as int) =~= joined_notices(
            o.broadcaster,
            player_id@,
            lobby_players(o.manager, dm@),
        ) + seq![e1, e2]);
        self.broadcast_scoreboard(dm.as_str(), out);
        assert(self@ =~= (HandlerView {
            manager: manager_joined(o.manager, dm@, p),
            broadcaster: o.broadcaster.joined(dm@, player_id@),
            player_lobbies: o.assigned(player_id@, dm@),
        }));
        assert(before_board =~= notices_out + seq![
            before_board[notices_out.len() as int],
            before_board[notices_out.len() + 1int],
        ]);
        assert(effects_view(out@).skip(start_out.len() as int).take(
            lobby_players(o.manager, dm@).len() + 2int,
        ) =~= before_board.skip(start_out.len() as int));
        assert(effects_view(out@).take(old(out)@.len() as int) =~= start_out);
    }

    pub fn handle_player_disconnect(&mut self, player_id: &str, out: &mut Vec<Effect>)
        requires
            old(self)@.wf(),
        ensures
            final(self)@.wf(),
            disconnect_done(
                old(self)@,
                final(self)@,
                player_id@,
                effects_view(final(out)@).skip(old(out)@.len() as int),
            ),
            effects_view(final(out)@).take(old(out)@.len() as int) == effects_view(old(out)@),
    {
        let ghost start_out = effects_view(out@);
        let ghost o = self@;
        match self.unassign(player_id) {
            Some(lobby_id) => {
                self.message_broadcaster.remove_player_from_lobby(lobby_id.as_str(), player_id);
                self.lobby_manager.leave_lobby(lobby_id.as_str(), player_id);
                let msg = ServerMessage::PlayerLeft { player_id: owned(player_id) };
                let d = self.message_broadcaster.broadcast_to_lobby(lobby_id.as_str(), msg, None);
                out.push(Effect::Deliver(d));
                self.broadcast_team_update(lobby_id.as_str(), out);
                let ghost before_board = effects_view(out@);
                self.broadcast_scoreboard(lobby_id.as_str(), out);
                assert(self@ =~= (HandlerView {
                    manager: o.manager.after_leaving(lobby_id@, player_id@),
                    broadcaster: o.broadcaster.left(lobby_id@, player_id@),
                    player_lobbies: o.unassigned(player_id@),
                }));
                assert(effects_view(out@).skip(start_out.len() as int).take(
                    team_update_effects(self@.broadcaster, self@.manager, lobby_id@).len() + 1int,
                ) =~= before_board.skip(start_out.len() as int));
                assert(before_board.skip(start_out.len() as int) =~= seq![
                    before_board[start_out.len() as int],
                ] + team_update_effects(self@.broadcaster, self@.manager, lobby_id@));
            },
            None => {
                assert(self@ =~= o);
                assert(effects_view(out@).skip(start_out.len() as int) =~= Seq::<EffectView>::empty());
            },
        }
        assert(effects_view(out@).take(old(out)@.len() as int) =~= start_out);
    }
}


impl MessageHandler {
    fn handle_create_team_lobby(&mut self, player_id: &str, name: String, out: &mut Vec<Effect>)
        requires
            old(self)@.wf(),
        ensures
            final(self)@.wf(),
            create_team_lobby_done(
                old(self)@,
                final(self)@,
                player_id@,
                name@,
                effects_view(final(out)@).skip(old(out)@.len() as int),
            ),
            effects_view(final(out)@).take(old(out)@.len() as int) == effects_view(old(out)@),
    {
        let ghost start_out = effects_view(out@);
        let ghost o = self@;
        match self.lobby_for(player_id) {
            Some(old_lobby) => {
                self.lobby_manager.leave_lobby(old_lobby.as_str(), player_id);
                self.message_broadcaster.remove_player_from_lobby(old_lobby.as_str(), player_id);
                let msg = ServerMessage::PlayerLeft { player_id: owned(player_id) };
                let d = self.message_broadcaster.broadcast_to_lobby(old_lobby.as_str(), msg, None);
                let ghost e0 = Effect::Deliver(d)@;
                out.push(Effect::Deliver(d));
                let ghost pushed = effects_view(out@);
                assert(pushed =~= start_out.push(e0));
                self.broadcast_scoreboard(old_lobby.as_str(), out);
                assert(effects_view(out@).take(pushed.len() as int) =~= pushed);
                assert(effects_view(out@)[start_out.len() as int] == pushed[start_out.len() as int]);
                assert(effects_view(out@).take(start_out.len() as int) =~= start_out);
            },
            None => {
                assert(effects_view(out@) =~= start_out);
            },
        }
        let ghost left_out = effects_view(out@);
        let ghost m1 = self@.manager;
        let ghost b1 = self@.broadcaster;
        let team = self.lobby_manager.get_or_create_team_selection_lobby();
        let ghost m2 = self@.manager;
        let player = Player::new(owned(player_id), name, (BITS_ZERO, BITS_FIVE, BITS_ZERO));
        let ghost p = player@;
        self.lobby_manager.join_lobby(team.as_str(), player);
        proof {
            if m2.has(team@) && m2.lobby(team@).has_room() {
                crate::lobby_manager::lemma_with_lobby_lookup(m2, team@, m2.lobby(team@).with_player(p));
            }
        }
        self.assign(player_id, team.as_str());
        self.message_broadcaster.add_player_to_lobby(team.as_str(), player_id);
        let msg = ServerMessage::TeamLobbyCreated { lobby_id: team.clone() };
        let d = self.message_broadcaster.send_to_player(player_id, msg);
        let ghost e = Effect::Deliver(d)@;
        out.push(Effect::Deliver(d));
        self.broadcast_team_update(team.as_str(), out);
        proof {
            assert(m2.has(team@));
            assert(self@.manager.team_selection_lobby_id == Some(team@));
            assert(self@.manager.lobby(team@).created_at == m2.lobby(team@).created_at);
            assert(m2 == selection_sought(m1, team@, self@.manager.lobby(team@).created_at));
            assert(self@ =~= (HandlerView {
                manager: manager_joined(m2, team@, p),
                broadcaster: b1.joined(team@, player_id@),
                player_lobbies: o.assigned(player_id@, team@),
            }));
            assert(effects_view(out@).skip(left_out.len() as int) =~= seq![e] + team_update_effects(
                self@.broadcaster,
                self@.manager,
                team@,
            ));
            assert(effects_view(out@).take(left_out.len() as int) =~= left_out);
            let es = effects_view(out@).skip(start_out.len() as int);
            assert(es =~= left_out.skip(start_out.len() as int) + effects_view(out@).skip(
                left_out.len() as int,
            ));
            if o.lobby_of_player(player_id@) is Some {
                assert(left_out.len() == start_out.len() + 2);
                assert(es.skip(2) =~= effects_view(out@).skip(left_out.len() as int));
            }
        }
        assert(effects_view(out@).take(old(out)@.len() as int) =~= start_out);
    }
}


/// Passes each of `ds` on as an effect.
pub fn push_deliveries(ds: Vec<Delivery>, out: &mut Vec<Effect>)
    ensures
        effects_view(final(out)@) == effects_view(old(out)@) + delivered(deliveries_view(ds@)),
{
    let ghost start = effects_view(out@);
    let ghost all = delivered(deliveries_view(ds@));
    let ghost orig = ds@;
    let mut ds = ds;
    let ghost mut k: int = 0;
    assert(effects_view(out@) =~= start + all.take(0));
    assert(ds@ =~= orig.skip(0));
    while ds.len() > 0
        invariant
            0 <= k <= orig.len(),
            all == delivered(deliveries_view(orig)),
            start == effects_view(old(out)@),
            ds@ == orig.skip(k),
            effects_view(out@) == start + all.take(k),
        decreases ds.len(),
    {
        let d = ds.remove(0);
        assert(d == orig[k]);
        let ghost before = effects_view(out@);
        out.push(Effect::Deliver(d));
        assert(effects_view(out@) =~= before.push(all[k]));
        assert(start + all.take(k + 1) =~= (start + all.take(k)).push(all[k]));
        assert(ds@ =~= orig.skip(k + 1));
        proof {
            k = k + 1;
        }
    }
    assert(all.take(k) =~= all);
}

/// What the `k0`-th of `players` learns of the others as a team game starts.
fn push_peers_for(b: &MessageBroadcaster, players: &Vec<Player>, k0: usize, out: &mut Vec<Effect>)
    requires
        b.wf(),
        k0 < players.len(),
    ensures
        effects_view(final(out)@) == effects_view(old(out)@) + peers_for(
            b@,
            crate::roster::players_view(players@),
            crate::roster::players_view(players@)[k0 as int],
            players.len() as int,
        ),
{
    let ghost ps = crate::roster::players_view(players@);
    let ghost p = ps[k0 as int];
    let ghost start = effects_view(out@);
    let mut k: usize = 0;
    assert(effects_view(out@) =~= start + peers_for(b@, ps, p, 0));
    while k < players.len()
        invariant
            b.wf(),
            k0 < players.len(),
            ps == crate::roster::players_view(players@),
            p == ps[k0 as int],
            start == effects_view(old(out)@),
            k <= players.len(),
            effects_view(out@) == start + peers_for(b@, ps, p, k as int),
        decreases players.len() - k,
    {
        let ghost before = effects_view(out@);
        assert(ps[k as int] == players@[k as int]@);
        assert(p == players@[k0 as int]@);
        if !same_text(players[k0].id.as_str(), players[k].id.as_str()) {
            let msg = ServerMessage::PlayerJoined { player: players[k].snapshot() };
            let d = b.send_to_player(players[k0].id.as_str(), msg);
            let ghost e = Effect::Deliver(d)@;
            out.push(Effect::Deliver(d));
            assert(e == deliver(b@.player_recipients(p.id), MessageView::PlayerJoined { player: ps[k as int] }));
            assert(effects_view(out@) =~= before.push(e));
            assert(peers_for(b@, ps, p, k + 1) == peers_for(b@, ps, p, k as int) + seq![e]);
            assert(effects_view(out@) =~= start + peers_for(b@, ps, p, k + 1));
        } else {
            assert(peers_for(b@, ps, p, k + 1) =~= peers_for(b@, ps, p, k as int));
        }
        k = k + 1;
    }
}

/// What each of `players` learns of the others as a team game starts.
fn push_peer_notices(b: &MessageBroadcaster, players: &Vec<Player>, out: &mut Vec<Effect>)
    requires
        b.wf(),
    ensures
        effects_view(final(out)@) == effects_view(old(out)@) + peer_notices(
            b@,
            crate::roster::players_view(players@),
            players.len() as int,
        ),
{
    let ghost ps = crate::roster::players_view(players@);
    let ghost start = effects_view(out@);
    let mut k: usize = 0;
    assert(effects_view(out@) =~= start + peer_notices(b@, ps, 0));
    while k < players.len()
        invariant
            b.wf(),
            ps == crate::roster::players_view(players@),
            start == effects_view(old(out)@),
            k <= players.len(),
            effects_view(out@) == start + peer_notices(b@, ps, k as int),
        decreases players.len() - k,
    {
        push_peers_for(b, players, k, out);
        assert(peer_notices(b@, ps, k + 1) == peer_notices(b@, ps, k as int) + peers_for(
            b@,
            ps,
            ps[k as int],
            ps.len() as int,
        ));
        assert(effects_view(out@) =~= start + peer_notices(b@, ps, k + 1));
        k = k + 1;
    }
}

impl MessageHandler {
    fn handle_start_team_game(&mut self, player_id: &str, out: &mut Vec<Effect>)
        requires
            old(self)@.wf(),
            old(self)@.room_in_lobby_of(player_id@),
        ensures
            final(self)@.wf(),
            start_game_done(
                old(self)@,
                final(self)@,
                player_id@,
                effects_view(final(out)@).skip(old(out)@.len() as int),
            ),
            effects_view(final(out)@).take(old(out)@.len() as int) == effects_view(old(out)@),
    {
        let ghost start_out = effects_view(out@);
        let ghost o = self@;
        match self.lobby_for(player_id) {
            Some(lobby_id) => {
                let l = lobby_id.as_str();
                if self.lobby_manager.start_team_game(l) {
                    proof {
                        crate::lobby_manager::lemma_with_lobby_lookup(o.manager, l@, self@.manager.lobby(l@));
                    }
                    let ghost after = self@.manager.lobby(l@);
                    let ghost bv = self@.broadcaster;
                    let b = &self.message_broadcaster;
                    let lobby_players = self.lobby_manager.get_lobby_players(l);
                    push_peer_notices(b, &lobby_players, out);
                    let ghost peers = peer_notices(bv, after.players, after.players.len() as int);
                    assert(effects_view(out@) == start_out + peers);
                    let started = ServerMessage::GameStarted { game_mode: owned("team") };
                    let d1 = b.broadcast_to_lobby(l, started, None);
                    let ghost e1 = Effect::Deliver(d1)@;
                    let ghost before_e1 = effects_view(out@);
                    out.push(Effect::Deliver(d1));
                    assert(effects_view(out@) =~= before_e1.push(e1));
                    let attacking = match self.lobby_manager.get_attacking_team(l) {
                        Some(t) => t.as_str(),
                        None => "red",
                    };
                    let round = ServerMessage::RoundStart {
                        round_number: 1,
                        buy_time: BUY_TIME_SECS,
                        orange_score: 0,
                        red_score: 0,
                        attacking_team: owned(attacking),
                    };
                    let d2 = b.broadcast_to_lobby(l, round, None);
                    let ghost e2 = Effect::Deliver(d2)@;
                    let ghost before_e2 = effects_view(out@);
                    out.push(Effect::Deliver(d2));
                    assert(effects_view(out@) =~= before_e2.push(e2));
                    assert(effects_view(out@) =~= start_out + (peers + seq![e1, e2]));
                    let mut respawns: Vec<Delivery> = Vec::new();
                    crate::announcements::push_respawn_notices(b, l, &lobby_players, &mut respawns);
                    assert(deliveries_view(respawns@) =~= crate::announcements::respawn_notices(
                        bv,
                        l@,
                        after.players,
                    ));
                    let ghost rs = delivered(crate::announcements::respawn_notices(bv, l@, after.players));
                    push_deliveries(respawns, out);
                    assert(effects_view(out@) =~= start_out + (peers + seq![e1, e2] + rs));
                    let ghost before_bomb = effects_view(out@);
                    match self.lobby_manager.get_bomb_carrier(l) {
                        Some(carrier) => {
                            let give = ServerMessage::GiveBomb { player_id: carrier.clone() };
                            let d3 = b.send_to_player(carrier.as_str(), give);
                            let ghost e3 = Effect::Deliver(d3)@;
                            out.push(Effect::Deliver(d3));
                            assert(effects_view(out@) =~= before_bomb.push(e3));
                            assert(bomb_handout(bv, after.bomb_carrier_id) == seq![e3]);
                            assert(effects_view(out@) =~= before_bomb + seq![e3]);
                        },
                        None => {
                            assert(bomb_handout(bv, after.bomb_carrier_id) =~= Seq::<EffectView>::empty());
                            assert(effects_view(out@) =~= before_bomb + Seq::<EffectView>::empty());
                        },
                    }
                    let ghost head = peers + seq![e1, e2] + rs + bomb_handout(bv, after.bomb_carrier_id);
                    assert(effects_view(out@) =~= start_out + head);
                    let ghost head_out = effects_view(out@);
                    self.broadcast_scoreboard(l, out);
                    assert(effects_view(out@).take(head_out.len() as int) == head_out);
                    assert(self@ =~= o.with_manager(self@.manager));
                    assert(head_out.skip(start_out.len() as int) =~= head);
                    assert(effects_view(out@).skip(start_out.len() as int).take(head.len() as int)
                        =~= effects_view(out@).take(head_out.len() as int).skip(start_out.len() as int));
                    assert(effects_view(out@).skip(start_out.len() as int).take(head.len() as int) =~= head);
                    assert(effects_view(out@).take(old(out)@.len() as int) =~= start_out);
                } else {
                    assert(self@ =~= o);
                    assert(effects_view(out@).skip(start_out.len() as int) =~= Seq::<EffectView>::empty());
                }
            },
            None => {
                assert(effects_view(out@).skip(start_out.len() as int) =~= Seq::<EffectView>::empty());
            },
        }
        assert(effects_view(out@).take(old(out)@.len() as int) =~= start_out);
    }
}


impl MessageHandler {
    /// Ends the round of `lobby_id` in favour of `winner`, unless
    /// `already_ended`, and announces its outcome.
    #[verifier::spinoff_prover]
    fn finish_round(
        &mut self,
        lobby_id: &str,
        winner: TeamColor,
        reason: &str,
        already_ended: bool,
        out: &mut Vec<Effect>,
    )
        requires
            old(self)@.wf(),
            !already_ended && old(self)@.manager.has(lobby_id@) ==> old(self)@.manager.lobby(
                lobby_id@,
            ).orange_score < i32::MAX && old(self)@.manager.lobby(lobby_id@).red_score < i32::MAX,
        ensures
            final(self)@.wf(),
            final(self)@ == old(self)@.with_manager(final(self)@.manager),
            finish_done(
                old(self)@.broadcaster,
                old(self)@.manager,
                final(self)@.manager,
                lobby_id@,
                winner,
                reason@,
                already_ended,
                effects_view(final(out)@).skip(old(out)@.len() as int),
            ),
            final(out)@.len() >= old(out)@.len(),
            effects_view(final(out)@).take(old(out)@.len() as int) == effects_view(old(out)@),
    {
        let ghost start_out = effects_view(out@);
        let ghost o = self@;
        let ghost b = o.broadcaster;
        if !already_ended {
            self.lobby_manager.end_round(lobby_id, winner, reason);
            proof {
                if o.manager.has(lobby_id@) {
                    crate::lobby_manager::lemma_with_lobby_lookup(
                        o.manager,
                        lobby_id@,
                        self@.manager.lobby(lobby_id@),
                    );
                }
            }
        }
        let ghost ended = self@.manager;
        let (orange_score, red_score) = self.lobby_manager.get_team_scores(lobby_id);
        let msg = ServerMessage::RoundEnd {
            winner: owned(winner.as_str()),
            reason: owned(reason),
            orange_score,
            red_score,
        };
        let d = self.message_broadcaster.broadcast_to_lobby(lobby_id, msg, None);
        let ghost e0 = Effect::Deliver(d)@;
        out.push(Effect::Deliver(d));
        assert(effects_view(out@) =~= start_out + seq![e0]);
        let players = self.lobby_manager.get_lobby_players(lobby_id);
        let mut money: Vec<Delivery> = Vec::new();
        crate::announcements::push_money_updates(&self.message_broadcaster, &players, &mut money);
        assert(deliveries_view(money@) =~= crate::announcements::money_updates(
            b,
            lobby_players(ended, lobby_id@),
        ));
        push_deliveries(money, out);
        let ghost head = seq![e0] + delivered(crate::announcements::money_updates(
            b,
            lobby_players(ended, lobby_id@),
        ));
        assert(effects_view(out@) =~= start_out + head);
        let ghost head_out = effects_view(out@);
        if self.lobby_manager.is_match_over(lobby_id) {
            proof {
                let el = ended.lobby(lobby_id@);
                if !el.match_end_announced {
                    crate::lobby_manager::lemma_with_lobby_lookup(
                        ended,
                        lobby_id@,
                        LobbyView { match_end_announced: true, ..el },
                    );
                }
            }
            match self.lobby_manager.take_match_end_winner(lobby_id) {
                Some(name) => {
                    let end = ServerMessage::MatchEnd { winner: owned(name) };
                    let d2 = self.message_broadcaster.broadcast_to_lobby(lobby_id, end, None);
                    let ghost e2 = Effect::Deliver(d2)@;
                    out.push(Effect::Deliver(d2));
                    assert(effects_view(out@) =~= head_out.push(e2));
                    assert(effects_view(out@).skip(head_out.len() as int) =~= seq![e2]);
                },
                None => {
                    assert(effects_view(out@).skip(head_out.len() as int) =~= Seq::<EffectView>::empty());
                },
            }
        } else {
            let later = Effect::RestartRoundLater { lobby_id: owned(lobby_id) };
            let ghost e3 = later@;
            out.push(later);
            assert(effects_view(out@) =~= head_out.push(e3));
            assert(effects_view(out@).skip(head_out.len() as int) =~= seq![e3]);
        }
        proof {
            if self@.manager.has(lobby_id@) && o.manager.has(lobby_id@) {
                assert(self@.manager.lobby(lobby_id@).round_end_time == ended.lobby(lobby_id@).round_end_time);
            }
        }
        assert(self@ =~= o.with_manager(self@.manager));
        proof {
            assert(effects_view(out@).take(head_out.len() as int) =~= head_out);
            lemma_effects_split(effects_view(out@), head_out, start_out.len() as int);
            assert(head_out.skip(start_out.len() as int) =~= head);
            assert(head_out.take(start_out.len() as int) =~= start_out);
        }
    }

    /// Ends the round of `lobby_id` in favour of `winning_team` and announces
    /// its outcome.
    fn handle_round_end(
        &mut self,
        lobby_id: &str,
        winning_team: TeamColor,
        reason: &str,
        out: &mut Vec<Effect>,
    )
        requires
            old(self)@.wf(),
            old(self)@.manager.has(lobby_id@) ==> old(self)@.manager.lobby(lobby_id@).orange_score
                < i32::MAX && old(self)@.manager.lobby(lobby_id@).red_score < i32::MAX,
        ensures
            final(self)@.wf(),
            final(self)@ == old(self)@.with_manager(final(self)@.manager),
            finish_done(
                old(self)@.broadcaster,
                old(self)@.manager,
                final(self)@.manager,
                lobby_id@,
                winning_team,
                reason@,
                false,
                effects_view(final(out)@).skip(old(out)@.len() as int),
            ),
            final(out)@.len() >= old(out)@.len(),
            effects_view(final(out)@).take(old(out)@.len() as int) == effects_view(old(out)@),
    {
        self.finish_round(lobby_id, winning_team, reason, false, out);
    }

    fn handle_defuse_bomb(&mut self, player_id: &str, within_reach: bool, out: &mut Vec<Effect>)
        requires
            old(self)@.wf(),
            old(self)@.room_in_lobby_of(player_id@),
        ensures
            final(self)@.wf(),
            defuse_done(
                old(self)@,
                final(self)@,
                player_id@,
                within_reach,
                effects_view(final(out)@).skip(old(out)@.len() as int),
            ),
            effects_view(final(out)@).take(old(out)@.len() as int) == effects_view(old(out)@),
    {
        let ghost start_out = effects_view(out@);
        let ghost o = self@;
        match self.lobby_for(player_id) {
            Some(lobby_id) => {
                let l = lobby_id.as_str();
                match self.lobby_manager.defuse_bomb(l, player_id, within_reach) {
                    Some(winner) => {
                        proof {
                            crate::lobby_manager::lemma_with_lobby_lookup(
                                o.manager,
                                l@,
                                self@.manager.lobby(l@),
                            );
                        }
                        let ghost defused = self@.manager;
                        let msg = ServerMessage::BombDefused { player_id: owned(player_id) };
                        let d = self.message_broadcaster.broadcast_to_lobby(l, msg, None);
                        let ghost e0 = Effect::Deliver(d)@;
                        out.push(Effect::Deliver(d));
                        let ghost pushed = effects_view(out@);
                        assert(pushed =~= start_out.push(e0));
                        proof {
                            reveal_strlit("Bomb Defused");
                        }
                        self.finish_round(l, winner, "Bomb Defused", true, out);
                        assert(self@ =~= o.with_manager(self@.manager));
                        proof {
                            lemma_effects_split(effects_view(out@), pushed, start_out.len() as int);
                            assert(pushed.skip(start_out.len() as int) =~= seq![e0]);
                            assert(effects_view(out@).skip(start_out.len() as int).skip(1) =~= effects_view(
                                out@,
                            ).skip(pushed.len() as int));
                        }
                        proof {
                            let el = defused.lobby(l@);
                            if el.game_state == GameState::MatchEnd && !el.match_end_announced {
                                crate::lobby_manager::lemma_with_lobby_lookup(
                                    defused,
                                    l@,
                                    LobbyView { match_end_announced: true, ..el },
                                );
                            }
                            assert(self@.manager.lobby(l@).round_end_time == el.round_end_time);
                        }
                    },
                    None => {
                        assert(self@ =~= o);
                        assert(effects_view(out@).skip(start_out.len() as int) =~= Seq::<EffectView>::empty());
                    },
                }
            },
            None => {
                assert(effects_view(out@).skip(start_out.len() as int) =~= Seq::<EffectView>::empty());
            },
        }
        assert(effects_view(out@).take(old(out)@.len() as int) =~= start_out);
    }
}


/// The name of the player `id` among `players`, or `"Unknown"`.
fn name_or_unknown_in(players: &Vec<Player>, id: &str) -> (name: String)
    requires
        crate::roster::ids_unique(crate::roster::players_view(players@)),
    ensures
        name@ == name_or_unknown(crate::roster::players_view(players@), id@),
{
    let key = owned(id);
    match crate::roster::find_player(players, &key) {
        Some(i) => {
            proof {
                crate::roster::lemma_found_player(crate::roster::players_view(players@), id@, i as int);
            }
            players[i].name.clone()
        },
        None => {
            proof {
                reveal_strlit("Unknown");
            }
            owned("Unknown")
        },
    }
}

impl MessageHandler {
    /// Credits `shooter_id` with the kill of `target_player_id` in the lobby
    /// `lobby_id`, drops the bomb if the dead player carried it, and
    /// announces it.
    fn credit_kill(
        &mut self,
        lobby_id: &str,
        shooter_id: &str,
        target_player_id: &str,
        out: &mut Vec<Effect>,
    )
        requires
            old(self)@.wf(),
            old(self)@.manager.has(lobby_id@),
            has_player(old(self)@.manager.lobby(lobby_id@).players, shooter_id@) ==> player_of(
                old(self)@.manager.lobby(lobby_id@).players,
                shooter_id@,
            ).kills < i32::MAX,
        ensures
            final(self)@.wf(),
            final(self)@ == old(self)@.with_manager(
                old(self)@.manager.with_lobby(
                    lobby_id@,
                    bomb_lost(credited(old(self)@.manager.lobby(lobby_id@), shooter_id@), target_player_id@),
                ),
            ),
            effects_view(final(out)@) == effects_view(old(out)@) + kill_notices(
                old(self)@.broadcaster,
                lobby_id@,
                credited(old(self)@.manager.lobby(lobby_id@), shooter_id@),
                shooter_id@,
                target_player_id@,
            ),
    {
        let ghost o = self@;
        let ghost start_out = effects_view(out@);
        let l = lobby_id;
        self.lobby_manager.add_kill_to_player(l, shooter_id);
        let ghost scored = credited(o.manager.lobby(l@), shooter_id@);
        proof {
            crate::lobby_manager::lemma_with_lobby_lookup(o.manager, l@, scored);
            crate::lobby_manager::lemma_lobby_wf(self@.manager, l@);
        }
        let players = self.lobby_manager.get_lobby_players(l);
        let victim_name = name_or_unknown_in(&players, target_player_id);
        let killer_name = name_or_unknown_in(&players, shooter_id);
        let shooter_key = owned(shooter_id);
        match crate::roster::find_player(&players, &shooter_key) {
            Some(i) => {
                proof {
                    crate::roster::lemma_found_player(scored.players, shooter_id@, i as int);
                }
                let msg = ServerMessage::MoneyUpdate { player_id: owned(shooter_id), money: players[i].money };
                let d = self.message_broadcaster.send_to_player(shooter_id, msg);
                let ghost e = Effect::Deliver(d)@;
                let ghost before_push = effects_view(out@);
                out.push(Effect::Deliver(d));
                assert(effects_view(out@) =~= before_push.push(e));
            },
            None => {},
        }
        let died_msg = ServerMessage::PlayerDied {
            player_id: owned(target_player_id),
            killer_id: owned(shooter_id),
            victim_name,
            killer_name,
        };
        let d = self.message_broadcaster.broadcast_to_lobby(l, died_msg, None);
        let ghost e_died = Effect::Deliver(d)@;
        let ghost before_died = effects_view(out@);
        out.push(Effect::Deliver(d));
        assert(effects_view(out@) =~= before_died.push(e_died));
        let ghost before_drop = effects_view(out@);
        match self.lobby_manager.drop_bomb(l, target_player_id) {
            Some(position) => {
                let msg = ServerMessage::BombDropped {
                    position_x: position.0,
                    position_y: position.1,
                    position_z: position.2,
                };
                let d2 = self.message_broadcaster.broadcast_to_lobby(l, msg, None);
                let ghost e2 = Effect::Deliver(d2)@;
                out.push(Effect::Deliver(d2));
                assert(effects_view(out@) =~= before_drop.push(e2));
            },
            None => {},
        }
        proof {
            let dropped = bomb_lost(scored, target_player_id@);
            crate::lobby_manager::lemma_with_lobby_twice(o.manager, l@, scored, dropped);
        }
        assert(self@ =~= o.with_manager(self@.manager));
        assert(effects_view(out@) =~= start_out + kill_notices(
            o.broadcaster,
            l@,
            scored,
            shooter_id@,
            target_player_id@,
        ));
    }
}

impl MessageHandler {
    fn handle_hit(
        &mut self,
        shooter_id: &str,
        target_player_id: &str,
        shot_blocked: bool,
        out: &mut Vec<Effect>,
    )
        requires
            old(self)@.wf(),
            old(self)@.room_in_lobby_of(shooter_id@),
        ensures
            final(self)@.wf(),
            hit_done(
                old(self)@,
                final(self)@,
                shooter_id@,
                target_player_id@,
                shot_blocked,
                effects_view(final(out)@).skip(old(out)@.len() as int),
            ),
            effects_view(final(out)@).take(old(out)@.len() as int) == effects_view(old(out)@),
    {
        let ghost start_out = effects_view(out@);
        let ghost o = self@;
        let lobby_id = match self.lobby_for(shooter_id) {
            Some(l) => l,
            None => {
                assert(effects_view(out@).skip(start_out.len() as int) =~= Seq::<EffectView>::empty());
                assert(effects_view(out@).take(old(out)@.len() as int) =~= start_out);
                return;
            },
        };
        let l = lobby_id.as_str();
        if shot_blocked {
            assert(effects_view(out@).skip(start_out.len() as int) =~= Seq::<EffectView>::empty());
            assert(effects_view(out@).take(old(out)@.len() as int) =~= start_out);
            return;
        }
        proof {
            self.lobby_manager.lemma_shields_fit();
            if o.manager.has(l@) {
                crate::lobby_manager::lemma_counters_lobby(o.manager, l@, target_player_id@);
            }
        }
        let r = self.lobby_manager.damage_player(l, target_player_id, HIT_DAMAGE);
        let (died, health, shield) = match r {
            Some(t) => t,
            None => {
                assert(self@ =~= o);
                assert(effects_view(out@).skip(start_out.len() as int) =~= Seq::<EffectView>::empty());
                assert(effects_view(out@).take(old(out)@.len() as int) =~= start_out);
                return;
            },
        };
        let ghost before = o.manager.lobby(l@);
        let ghost hit_lobby = self@.manager.lobby(l@);
        let ghost at = player_of(hit_lobby.players, target_player_id@).last_hit_time.unwrap();
        proof {
            assert(hit_lobby == struck(before, target_player_id@, at));
            crate::lobby_manager::lemma_with_lobby_lookup(o.manager, l@, hit_lobby);
        }
        if !died {
            let msg = ServerMessage::PlayerHit {
                player_id: owned(target_player_id),
                damage: HIT_DAMAGE,
                health,
                shield,
            };
            let d = self.message_broadcaster.broadcast_to_lobby(l, msg, None);
            let ghost e = Effect::Deliver(d)@;
            out.push(Effect::Deliver(d));
            assert(self@ =~= o.with_manager(o.manager.with_lobby(l@, hit_lobby)));
            assert(effects_view(out@).skip(start_out.len() as int) =~= seq![e]);
            assert(hit_landed(
                o,
                self@,
                l@,
                shooter_id@,
                target_player_id@,
                at,
                effects_view(out@).skip(start_out.len() as int),
            ));
            assert(effects_view(out@).take(old(out)@.len() as int) =~= start_out);
            return;
        }
        let ghost scored = credited(hit_lobby, shooter_id@);
        let ghost b = o.broadcaster;
        proof {
            crate::lobby_manager::lemma_lobby_wf(o.manager, l@);
            crate::roster::lemma_player_of_update(
                before.players,
                target_player_id@,
                |p: PlayerView| p.hit(HIT_DAMAGE as int, at),
                shooter_id@,
            );
            crate::lobby_manager::lemma_counters_lobby(o.manager, l@, shooter_id@);
            crate::lobby_manager::lemma_lobby_wf(self@.manager, l@);
        }
        self.credit_kill(l, shooter_id, target_player_id, out);
        let ghost dropped = bomb_lost(scored, target_player_id@);
        let ghost head = kill_notices(b, l@, scored, shooter_id@, target_player_id@);
        proof {
            crate::lobby_manager::lemma_with_lobby_twice(o.manager, l@, hit_lobby, dropped);
            crate::lobby_manager::lemma_with_lobby_lookup(o.manager, l@, dropped);
        }
        let ghost head_out = effects_view(out@);
        self.broadcast_scoreboard(l, out);
        let ghost board_out = effects_view(out@);
        let ghost m = self@.manager;
        match self.lobby_manager.check_team_elimination(l) {
            Some(winner) => {
                proof {
                    reveal_strlit("Team Eliminated");
                }
                self.handle_round_end(l, winner, "Team Eliminated", out);
                proof {
                    lemma_effects_split(effects_view(out@), board_out, start_out.len() as int);
                    assert(board_out.take(head_out.len() as int) =~= head_out);
                    lemma_effects_split(board_out, head_out, start_out.len() as int);
                    let es = effects_view(out@).skip(start_out.len() as int);
                    assert(es.take(head.len() as int) =~= head);
                    assert(es[head.len() as int] == board_out.last());
                    assert(es.skip(head.len() + 1int) =~= effects_view(out@).skip(board_out.len() as int));
                    assert(hit_landed(o, self@, l@, shooter_id@, target_player_id@, at, es));
                }
            },
            None => {
                proof {
                    assert(board_out.take(head_out.len() as int) =~= head_out);
                    lemma_effects_split(board_out, head_out, start_out.len() as int);
                    let es = effects_view(out@).skip(start_out.len() as int);
                    assert(es.take(head.len() as int) =~= head);
                    assert(es[head.len() as int] == board_out.last());
                    assert(hit_landed(o, self@, l@, shooter_id@, target_player_id@, at, es));
                }
            },
        }
        assert(self@ =~= o.with_manager(self@.manager));
        assert(effects_view(out@).take(old(out)@.len() as int) =~= start_out);
    }
}


impl MessageHandler {
    /// Carries on with the lobby `lobby_id` once the pause after a round is
    /// over: announces the winner of a match that ended, or starts the next
    /// round, unless the periodic tick already started it.
    pub fn resume_after_round_end(&mut self, lobby_id: &str, out: &mut Vec<Effect>)
        requires
            old(self)@.wf(),
            old(self)@.manager.has(lobby_id@) ==> old(self)@.manager.lobby(lobby_id@).round_number
                < i32::MAX,
        ensures
            final(self)@.wf(),
            resume_done(
                old(self)@,
                final(self)@,
                lobby_id@,
                effects_view(final(out)@).skip(old(out)@.len() as int),
            ),
            effects_view(final(out)@).take(old(out)@.len() as int) == effects_view(old(out)@),
    {
        let ghost start_out = effects_view(out@);
        let ghost o = self@;
        let ghost b = o.broadcaster;
        let l = lobby_id;
        if self.lobby_manager.is_match_over(l) {
            match self.lobby_manager.take_match_end_winner(l) {
                Some(name) => {
                    let end = ServerMessage::MatchEnd { winner: owned(name) };
                    let d = self.message_broadcaster.broadcast_to_lobby(l, end, None);
                    let ghost e = Effect::Deliver(d)@;
                    out.push(Effect::Deliver(d));
                    assert(self@ =~= o.with_manager(self@.manager));
                    assert(effects_view(out@).skip(start_out.len() as int) =~= seq![e]);
                },
                None => {
                    assert(self@ =~= o);
                    assert(effects_view(out@).skip(start_out.len() as int) =~= Seq::<EffectView>::empty());
                },
            }
            assert(effects_view(out@).take(old(out)@.len() as int) =~= start_out);
            return;
        }
        if self.lobby_manager.next_round_begun(l) {
            assert(self@ =~= o);
            assert(effects_view(out@).skip(start_out.len() as int) =~= Seq::<EffectView>::empty());
            assert(effects_view(out@).take(old(out)@.len() as int) =~= start_out);
            return;
        }
        let switched = self.lobby_manager.start_new_round(l);
        proof {
            if o.manager.has(l@) {
                crate::lobby_manager::lemma_with_lobby_lookup(o.manager, l@, self@.manager.lobby(l@));
            }
        }
        let ghost after = self@.manager.lobby(l@);
        if switched {
            let clear = Effect::ClearStructures { lobby_id: owned(l) };
            let ghost e0 = clear@;
            out.push(clear);
            let d = self.message_broadcaster.broadcast_to_lobby(l, ServerMessage::MapReset, None);
            let ghost e1 = Effect::Deliver(d)@;
            out.push(Effect::Deliver(d));
            assert(effects_view(out@) =~= start_out + seq![e0, e1]);
            assert(effects_view(out@).skip(start_out.len() as int) =~= seq![e0, e1]);
        } else {
            assert(effects_view(out@) =~= start_out + Seq::<EffectView>::empty());
            assert(effects_view(out@).skip(start_out.len() as int) =~= Seq::<EffectView>::empty());
        }
        let ghost reset_out = effects_view(out@);
        let ghost reset = reset_out.skip(start_out.len() as int);
        assert(reset == if o.manager.has(l@) && o.manager.lobby(l@).next_round_switches() {
            seq![
                EffectView::ClearStructures { lobby_id: l@ },
                deliver(b.lobby_recipients(l@, None), MessageView::MapReset),
            ]
        } else {
            Seq::<EffectView>::empty()
        });
        let (orange_score, red_score) = self.lobby_manager.get_team_scores(l);
        let attacking = match self.lobby_manager.get_attacking_team(l) {
            Some(t) => t.as_str(),
            None => "red",
        };
        proof {
            reveal_strlit("red");
        }
        let round = ServerMessage::RoundStart {
            round_number: self.lobby_manager.get_round_number(l),
            buy_time: BUY_TIME_SECS,
            orange_score,
            red_score,
            attacking_team: owned(attacking),
        };
        let d2 = self.message_broadcaster.broadcast_to_lobby(l, round, None);
        let ghost e2 = Effect::Deliver(d2)@;
        out.push(Effect::Deliver(d2));
        assert(effects_view(out@) =~= reset_out.push(e2));
        let ghost present = o.manager.has(l@);
        assert(e2 == deliver(
            b.lobby_recipients(l@, None),
            MessageView::RoundStart {
                round_number: if present {
                    after.round_number
                } else {
                    0
                },
                buy_time: BUY_TIME_SECS as int,
                orange_score: if present {
                    after.orange_score
                } else {
                    0
                },
                red_score: if present {
                    after.red_score
                } else {
                    0
                },
                attacking_team: if present {
                    after.attacking_team.name()
                } else {
                    "red"@
                },
            },
        ));
        let players = self.lobby_manager.get_lobby_players(l);
        let ghost ps = lobby_players(self@.manager, l@);
        let mut respawns: Vec<Delivery> = Vec::new();
        crate::announcements::push_respawn_notices(&self.message_broadcaster, l, &players, &mut respawns);
        assert(deliveries_view(respawns@) =~= crate::announcements::respawn_notices(b, l@, ps));
        push_deliveries(respawns, out);
        let mut money: Vec<Delivery> = Vec::new();
        crate::announcements::push_money_updates(&self.message_broadcaster, &players, &mut money);
        assert(deliveries_view(money@) =~= crate::announcements::money_updates(b, ps));
        push_deliveries(money, out);
        let ghost before_bomb = effects_view(out@);
        let ghost carrier = if o.manager.has(l@) {
            after.bomb_carrier_id
        } else {
            None
        };
        match self.lobby_manager.get_bomb_carrier(l) {
            Some(c) => {
                let give = ServerMessage::GiveBomb { player_id: c.clone() };
                let d3 = self.message_broadcaster.send_to_player(c.as_str(), give);
                let ghost e3 = Effect::Deliver(d3)@;
                out.push(Effect::Deliver(d3));
                assert(effects_view(out@) =~= before_bomb.push(e3));
                assert(bomb_handout(b, carrier) == seq![e3]);
                assert(effects_view(out@) =~= before_bomb + bomb_handout(b, carrier));
            },
            None => {
                assert(effects_view(out@) =~= before_bomb + bomb_handout(b, carrier));
            },
        }
        assert(self@ =~= o.with_manager(self@.manager));
        assert(effects_view(out@).skip(start_out.len() as int) =~= reset_out.skip(start_out.len() as int)
            + seq![e2] + delivered(crate::announcements::respawn_notices(b, l@, ps)) + delivered(
            crate::announcements::money_updates(b, ps),
        ) + bomb_handout(b, carrier));
        assert(effects_view(out@).take(old(out)@.len() as int) =~= start_out);
    }
}


impl MessageHandler {
    /// Handles `message` from the player `player_id`. Returns what the
    /// caller is to do.
    pub fn handle_message(
        &mut self,
        player_id: &str,
        message: ClientMessage,
        facts: GeometryFacts,
    ) -> (effects: Vec<Effect>)
        requires
            old(self)@.wf(),
            advances_counters(message) ==> old(self)@.room_in_lobby_of(player_id@),
        ensures
            final(self)@.wf(),
            message_handled(old(self)@, final(self)@, player_id@, message, facts, effects_view(effects@)),
    {
        let mut out: Vec<Effect> = Vec::new();
        match message {
            ClientMessage::Join { name } => self.handle_join(player_id, name, &mut out),
            ClientMessage::CreateTeamLobby { name } => self.handle_create_team_lobby(player_id, name, &mut out),
            ClientMessage::JoinTeam { team } => self.handle_join_team(player_id, team.as_str(), &mut out),
            ClientMessage::StartTeamGame => self.handle_start_team_game(player_id, &mut out),
            ClientMessage::Move { x, y, z, rotation_x, rotation_y } => self.handle_move(
                player_id,
                x,
                y,
                z,
                rotation_x,
                rotation_y,
                &mut out,
            ),
            ClientMessage::Shoot { start_x, start_y, start_z, target_x, target_y, target_z } => self.handle_shoot(
                player_id,
                (start_x, start_y, start_z),
                (target_x, target_y, target_z),
                &mut out,
            ),
            ClientMessage::Hit { target_player_id, killed: _ } => self.handle_hit(
                player_id,
                target_player_id.as_str(),
                facts.shot_blocked,
                &mut out,
            ),
            ClientMessage::Respawn => self.handle_respawn(player_id, &mut out),
            ClientMessage::PlantBomb { position_x, position_z } => self.handle_plant_bomb(
                player_id,
                position_x,
                position_z,
                &mut out,
            ),
            ClientMessage::DefuseBomb => self.handle_defuse_bomb(
                player_id,
                facts.bomb_within_defuse_reach,
                &mut out,
            ),
            ClientMessage::DropBomb => self.handle_drop_bomb(player_id, &mut out),
            ClientMessage::PickupBomb => self.handle_pickup_bomb(
                player_id,
                facts.bomb_within_pickup_reach,
                &mut out,
            ),
            ClientMessage::PlaceStructure { structure_type, x, y, z } => self.handle_place_structure(
                player_id,
                structure_type,
                (x, y, z),
                &mut out,
            ),
            ClientMessage::WallHit { wall_x, wall_z, local_x, world_y, radius } => self.handle_wall_hit(
                player_id,
                (wall_x, wall_z, local_x, world_y, radius),
                facts.wall_hole_added,
                &mut out,
            ),
        }
        assert(effects_view(out@).skip(0) =~= effects_view(out@));
        out
    }
}

} // verus!
