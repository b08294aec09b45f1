//! A lobby: the players of one match, its teams, and the round and bomb state
//! machine (waiting → build phase → play → round end → … → match end).
//!
//! The executable [`Lobby`] is described by the model [`LobbyView`]; every
//! operation on a lobby is stated as a function on that model.
use crate::clock;
use crate::messages::{ScoreboardPlayer, ScoreboardView};
use crate::player::{FULL_HEALTH, FULL_SHIELD, Player, PlayerView};
use crate::roster::{
    find_id, find_player, has_player, ids_unique, ids_view, lemma_disjoint_within, lemma_found_id,
    lemma_found_player, lemma_push_id, lemma_push_player, lemma_remove_id, lemma_remove_player,
    lemma_replace_player, lemma_same_ids, player_index, player_of, players_view, remove_id, remove_id_from,
    remove_player, remove_player_from, update_player,
};
use crate::text::{owned, same_text};
use crate::spawn_system::{lemma_role_names, attacker_spawns, defender_spawns, SpawnSystem, BITS_TEN, BITS_ZERO};
use std::time::Instant;
use vstd::prelude::*;

verus! {

/// Seconds between the plant and the explosion of the bomb.
pub const BOMB_TIMER_SECS: u64 = 40;

/// Seconds the attackers have, once play starts, to plant the bomb.
pub const ROUND_TIMER_SECS: u64 = 100;

/// Round wins that win the match.
pub const ROUND_WINS_TO_WIN_MATCH: i32 = 7;

/// The round at which the teams switch sides and the economy is reset.
pub const HALFTIME_ROUND: i32 = 7;

/// Milliseconds the build phase lasts.
pub const BUILD_PHASE_MS: u64 = 30_000;

/// Milliseconds between the end of a round and the start of the next.
pub const ROUND_RESTART_MS: u64 = 5_000;

/// Players a team can hold.
pub const TEAM_CAPACITY: usize = 5;

/// Money every player is given when the economy is reset.
pub const RESET_MONEY: i32 = 800;

/// Money each player of the winning team earns at the end of a round.
pub const WIN_BONUS: i32 = 3000;

/// Money each player of the losing team earns at the end of a round.
pub const LOSS_BONUS: i32 = 1400;

/// No player holds more money than this through round bonuses.
pub const MAX_MONEY: i32 = 16000;

/// `1.0`, the height at which a planted or dropped bomb rests.
pub const BITS_ONE: u32 = 0x3F80_0000;

#[derive(Debug, Clone, Copy, PartialEq, Eq, Structural)]
pub enum GameMode {
    Deathmatch,
    TeamVsTeam,
}

#[derive(Debug, Clone, Copy, PartialEq, Eq, Structural)]
pub enum TeamColor {
    Orange,
    Red,
}

#[derive(Debug, Clone, Copy, PartialEq, Eq, Structural)]
pub enum GameState {
    WaitingForPlayers,
    BuildPhase,
    Playing,
    RoundEnd,
    MatchEnd,
}

#[derive(Debug, Clone, Copy, PartialEq, Eq, Structural)]
pub enum RoundEndReason {
    BombExploded,
    BombDefused,
    TeamEliminated,
    TimeUp,
}

impl TeamColor {
    pub open spec fn other(self) -> TeamColor {
        match self {
            TeamColor::Orange => TeamColor::Red,
            TeamColor::Red => TeamColor::Orange,
        }
    }

    /// The other team.
    pub fn opposite(&self) -> (t: TeamColor)
        ensures
            t == self.other(),
    {
        match self {
            TeamColor::Orange => TeamColor::Red,
            TeamColor::Red => TeamColor::Orange,
        }
    }

    /// The team's name on the wire: `"orange"` or `"red"`.
    pub open spec fn name(self) -> Seq<char> {
        match self {
            TeamColor::Orange => "orange"@,
            TeamColor::Red => "red"@,
        }
    }

    pub fn as_str(&self) -> (s: &'static str)
        ensures
            s@ == self.name(),
    {
        match self {
            TeamColor::Orange => "orange",
            TeamColor::Red => "red",
        }
    }
}

/// Where a player spawns when no team decides it.
pub open spec fn center_spawn() -> (u32, u32, u32) {
    (BITS_ZERO, BITS_TEN, BITS_ZERO)
}

#[derive(Debug)]
pub struct Lobby {
    pub id: String,
    pub game_mode: GameMode,
    pub players: Vec<Player>,
    pub max_players: usize,
    pub created_at: Instant,
    pub game_started: bool,
    pub orange_team: Vec<String>,
    pub red_team: Vec<String>,
    pub game_state: GameState,
    pub round_number: i32,
    pub orange_score: i32,
    pub red_score: i32,
    pub bomb_planted: bool,
    pub bomb_plant_time: Option<Instant>,
    pub bomb_carrier_id: Option<String>,
    pub bomb_dropped: bool,
    pub bomb_position: Option<(u32, u32, u32)>,
    pub build_phase_start: Option<Instant>,
    pub round_start_time: Option<Instant>,
    pub round_end_time: Option<Instant>,
    pub attacking_team: TeamColor,
    pub spawn_system: SpawnSystem,
    pub match_end_announced: bool,
}

/// The mathematical model of a [`Lobby`].
#[verifier::ext_equal]
pub struct LobbyView {
    pub id: Seq<char>,
    pub game_mode: GameMode,
    pub players: Seq<PlayerView>,
    pub max_players: nat,
    pub created_at: Instant,
    pub game_started: bool,
    pub orange_team: Seq<Seq<char>>,
    pub red_team: Seq<Seq<char>>,
    pub game_state: GameState,
    pub round_number: int,
    pub orange_score: int,
    pub red_score: int,
    pub bomb_planted: bool,
    pub bomb_plant_time: Option<Instant>,
    pub bomb_carrier_id: Option<Seq<char>>,
    pub bomb_dropped: bool,
    pub bomb_position: Option<(u32, u32, u32)>,
    pub build_phase_start: Option<Instant>,
    pub round_start_time: Option<Instant>,
    pub round_end_time: Option<Instant>,
    pub attacking_team: TeamColor,
    pub match_end_announced: bool,
}

impl View for Lobby {
    type V = LobbyView;

    open spec fn view(&self) -> LobbyView {
        LobbyView {
            id: self.id@,
            game_mode: self.game_mode,
            players: players_view(self.players@),
            max_players: self.max_players as nat,
            created_at: self.created_at,
            game_started: self.game_started,
            orange_team: ids_view(self.orange_team@),
            red_team: ids_view(self.red_team@),
            game_state: self.game_state,
            round_number: self.round_number as int,
            orange_score: self.orange_score as int,
            red_score: self.red_score as int,
            bomb_planted: self.bomb_planted,
            bomb_plant_time: self.bomb_plant_time,
            bomb_carrier_id: crate::player::opt_text(self.bomb_carrier_id),
            bomb_dropped: self.bomb_dropped,
            bomb_position: self.bomb_position,
            build_phase_start: self.build_phase_start,
            round_start_time: self.round_start_time,
            round_end_time: self.round_end_time,
            attacking_team: self.attacking_team,
            match_end_announced: self.match_end_announced,
        }
    }
}

/// Each player of `ids` gets `bonus` added to their money, up to [`MAX_MONEY`].
pub open spec fn award(ps: Seq<PlayerView>, ids: Seq<Seq<char>>, bonus: int) -> Seq<PlayerView> {
    ps.map_values(
        |p: PlayerView|
            if ids.contains(p.id) {
                PlayerView { money: min(p.money + bonus, MAX_MONEY as int), ..p }
            } else {
                p
            },
    )
}

pub open spec fn min(a: int, b: int) -> int {
    if a < b {
        a
    } else {
        b
    }
}

/// A player at the start of a round: back at `pos`, alive, healed, without the bomb.
pub open spec fn reset_for_round(p: PlayerView, pos: (u32, u32, u32)) -> PlayerView {
    PlayerView {
        x: pos.0,
        y: pos.1,
        z: pos.2,
        alive: true,
        health: FULL_HEALTH as int,
        shield: FULL_SHIELD as int,
        has_bomb: false,
        ..p
    }
}

pub open spec fn with_bomb(p: PlayerView, has_bomb: bool) -> PlayerView {
    PlayerView { has_bomb, ..p }
}

pub open spec fn with_team(p: PlayerView, team: Seq<char>) -> PlayerView {
    PlayerView { team: Some(team), ..p }
}

pub open spec fn with_money(p: PlayerView, money: int) -> PlayerView {
    PlayerView { money, ..p }
}

/// Every player after one step of shield regeneration, `since[i]` being the
/// time since the `i`-th player was last hit.
pub open spec fn regen_all(ps: Seq<PlayerView>, since: Seq<Option<u64>>) -> Seq<PlayerView> {
    Seq::new(ps.len(), |i: int| ps[i].regen(since[i]))
}

/// The shield changes that regeneration makes among the first `n` players,
/// in order: each player's id and new shield.
pub open spec fn shield_updates(ps: Seq<PlayerView>, since: Seq<Option<u64>>, n: int) -> Seq<
    (Seq<char>, int),
>
    decreases n,
{
    if n <= 0 {
        Seq::empty()
    } else {
        let rest = shield_updates(ps, since, n - 1);
        let p = ps[n - 1];
        if p.regen_applies(since[n - 1]) {
            rest.push((p.id, p.regen(since[n - 1]).shield))
        } else {
            rest
        }
    }
}

/// A player's row on the scoreboard that a member of team `viewer` sees: the
/// money shows only to the player's own team.
pub open spec fn scoreboard_entry(p: PlayerView, viewer: Option<Seq<char>>) -> ScoreboardView {
    let same_team = viewer is Some && p.team is Some && viewer == p.team;
    ScoreboardView {
        id: p.id,
        name: p.name,
        kills: p.kills,
        deaths: p.deaths,
        team: p.team,
        money: if same_team {
            Some(p.money)
        } else {
            None
        },
        alive: p.alive,
        has_bomb: p.has_bomb,
    }
}

/// `rows` with `r` placed before the first row with fewer kills.
pub open spec fn insert_by_kills(rows: Seq<ScoreboardView>, r: ScoreboardView) -> Seq<ScoreboardView>
    decreases rows.len(),
{
    if rows.len() == 0 {
        seq![r]
    } else if rows[0].kills >= r.kills {
        seq![rows[0]] + insert_by_kills(rows.skip(1), r)
    } else {
        seq![r] + rows
    }
}

/// `rows` ordered by kills, most first; rows with as many kills keep their
/// order.
pub open spec fn ranked(rows: Seq<ScoreboardView>) -> Seq<ScoreboardView>
    decreases rows.len(),
{
    if rows.len() == 0 {
        Seq::empty()
    } else {
        insert_by_kills(ranked(rows.drop_last()), rows.last())
    }
}

/// Inserting `r` at `pos`, after the rows with at least its kills and
/// before one with fewer, is [`insert_by_kills`].
pub proof fn lemma_insert_by_kills(rows: Seq<ScoreboardView>, r: ScoreboardView, pos: int)
    requires
        0 <= pos <= rows.len(),
        forall|j: int| 0 <= j < pos ==> #[trigger] rows[j].kills >= r.kills,
        pos == rows.len() || rows[pos].kills < r.kills,
    ensures
        insert_by_kills(rows, r) == rows.insert(pos, r),
    decreases pos,
{
    if pos == 0 {
        if rows.len() == 0 {
            assert(rows.insert(0, r) =~= seq![r]);
        } else {
            assert(rows.insert(0, r) =~= seq![r] + rows);
        }
    } else {
        let rest = rows.skip(1);
        assert forall|j: int| 0 <= j < pos - 1 implies #[trigger] rest[j].kills >= r.kills by {
            assert(rest[j] == rows[j + 1]);
        }
        if pos < rows.len() {
            assert(rest[pos - 1] == rows[pos]);
        }
        lemma_insert_by_kills(rest, r, pos - 1);
        assert(rows[0].kills >= r.kills);
        assert(seq![rows[0]] + rest.insert(pos - 1, r) =~= rows.insert(pos, r));
    }
}

/// Rows ordered by kills, most first.
pub open spec fn sorted_by_kills(rows: Seq<ScoreboardView>) -> bool {
    forall|i: int, j: int| 0 <= i < j < rows.len() ==> rows[i].kills >= rows[j].kills
}

pub open spec fn opt_str(o: Option<&str>) -> Option<Seq<char>> {
    match o {
        Some(s) => Some(s@),
        None => None,
    }
}

/// The (id, name) of each member of `ids` that is a player of `ps`, in team order.
pub open spec fn team_roster(ids: Seq<Seq<char>>, ps: Seq<PlayerView>) -> Seq<(Seq<char>, Seq<char>)> {
    ids.filter_map(
        |id: Seq<char>|
            if has_player(ps, id) {
                Some((id, player_of(ps, id).name))
            } else {
                None
            },
    )
}

pub open spec fn rows_view(rows: Seq<ScoreboardPlayer>) -> Seq<ScoreboardView> {
    rows.map_values(|r: ScoreboardPlayer| r@)
}

pub open spec fn pairs_view(pairs: Seq<(String, String)>) -> Seq<(Seq<char>, Seq<char>)> {
    pairs.map_values(|e: (String, String)| (e.0@, e.1@))
}

pub open spec fn shields_view(updates: Seq<(String, i32)>) -> Seq<(Seq<char>, int)> {
    updates.map_values(|e: (String, i32)| (e.0@, e.1 as int))
}

impl LobbyView {
    /// The invariant every lobby keeps: player ids are unique, and the two
    /// teams are lists of distinct ids that share none.
    pub open spec fn wf(self) -> bool {
        &&& ids_unique(self.players)
        &&& self.orange_team.no_duplicates()
        &&& self.red_team.no_duplicates()
        &&& self.orange_team.disjoint(self.red_team)
    }

    pub open spec fn team_ids(self, team: TeamColor) -> Seq<Seq<char>> {
        match team {
            TeamColor::Orange => self.orange_team,
            TeamColor::Red => self.red_team,
        }
    }

    pub open spec fn defending_team(self) -> TeamColor {
        self.attacking_team.other()
    }

    pub open spec fn score(self, team: TeamColor) -> int {
        match team {
            TeamColor::Orange => self.orange_score,
            TeamColor::Red => self.red_score,
        }
    }

    /// A lobby as it is opened.
    pub open spec fn opened(id: Seq<char>, mode: GameMode, created_at: Instant) -> LobbyView {
        LobbyView {
            id,
            game_mode: mode,
            players: Seq::empty(),
            max_players: match mode {
                GameMode::Deathmatch => 20,
                GameMode::TeamVsTeam => 10,
            },
            created_at,
            game_started: mode == GameMode::Deathmatch,
            orange_team: Seq::empty(),
            red_team: Seq::empty(),
            game_state: match mode {
                GameMode::Deathmatch => GameState::Playing,
                GameMode::TeamVsTeam => GameState::WaitingForPlayers,
            },
            round_number: 0,
            orange_score: 0,
            red_score: 0,
            bomb_planted: false,
            bomb_plant_time: None,
            bomb_carrier_id: None,
            bomb_dropped: false,
            bomb_position: None,
            build_phase_start: None,
            round_start_time: None,
            round_end_time: None,
            attacking_team: TeamColor::Red,
            match_end_announced: false,
        }
    }

    /// Adding a player succeeds while the lobby is below its capacity.
    pub open spec fn has_room(self) -> bool {
        self.players.len() < self.max_players
    }

    /// The lobby after `p` joined: a player with the same id is replaced.
    pub open spec fn with_player(self, p: PlayerView) -> LobbyView {
        LobbyView {
            players: if has_player(self.players, p.id) {
                update_player(self.players, p.id, |q: PlayerView| p)
            } else {
                self.players.push(p)
            },
            ..self
        }
    }

    pub open spec fn without_player(self, id: Seq<char>) -> LobbyView {
        LobbyView {
            players: remove_player(self.players, id),
            orange_team: remove_id(self.orange_team, id),
            red_team: remove_id(self.red_team, id),
            ..self
        }
    }

    /// Whether `id` can join `team`: the player is here and, once out of
    /// both teams, finds `team` below its capacity.
    pub open spec fn can_join(self, id: Seq<char>, team: TeamColor) -> bool {
        &&& has_player(self.players, id)
        &&& remove_id(self.team_ids(team), id).len() < TEAM_CAPACITY
    }

    /// The lobby after `id` asked to join `team`. A player who is here always
    /// leaves both teams first, even when `team` then turns out to be full.
    pub open spec fn joined_team(self, id: Seq<char>, team: TeamColor) -> LobbyView {
        if !has_player(self.players, id) {
            self
        } else {
            let left = LobbyView {
                orange_team: remove_id(self.orange_team, id),
                red_team: remove_id(self.red_team, id),
                ..self
            };
            if !self.can_join(id, team) {
                left
            } else {
                match team {
                    TeamColor::Orange => LobbyView {
                        orange_team: left.orange_team.push(id),
                        players: update_player(
                            self.players,
                            id,
                            |p: PlayerView| with_team(p, "orange"@),
                        ),
                        ..left
                    },
                    TeamColor::Red => LobbyView {
                        red_team: left.red_team.push(id),
                        players: update_player(
                            self.players,
                            id,
                            |p: PlayerView| with_team(p, "red"@),
                        ),
                        ..left
                    },
                }
            }
        }
    }

    pub open spec fn can_start_team_game(self) -> bool {
        &&& self.game_mode == GameMode::TeamVsTeam
        &&& self.orange_team.len() >= 1
        &&& self.red_team.len() >= 1
    }

    /// Where `id` spawns: in a team game at the spawn point of its side,
    /// numbered by its place in its team; otherwise at the center.
    pub open spec fn spawn_position(self, id: Seq<char>) -> (u32, u32, u32) {
        match self.game_mode {
            GameMode::Deathmatch => center_spawn(),
            GameMode::TeamVsTeam => {
                if self.orange_team.contains(id) {
                    let i = self.orange_team.index_of(id);
                    if self.attacking_team == TeamColor::Orange {
                        attacker_spawns()[i % 5]
                    } else {
                        defender_spawns()[i % 5]
                    }
                } else if self.red_team.contains(id) {
                    let i = self.red_team.index_of(id);
                    if self.attacking_team == TeamColor::Red {
                        attacker_spawns()[i % 5]
                    } else {
                        defender_spawns()[i % 5]
                    }
                } else {
                    center_spawn()
                }
            },
        }
    }

    /// Every player moved to their spawn point.
    pub open spec fn at_spawn_points(self) -> Seq<PlayerView> {
        self.players.map_values(
            |p: PlayerView|
                {
                    let pos = self.spawn_position(p.id);
                    PlayerView { x: pos.0, y: pos.1, z: pos.2, ..p }
                },
        )
    }

    /// Whether the next round is the one at which the teams switch sides.
    pub open spec fn next_round_switches(self) -> bool {
        self.round_number + 1 == HALFTIME_ROUND
    }

    /// The lobby at the start of the next round, begun at instant `at`, with
    /// the bomb given to the attacker that `seed` picks.
    pub open spec fn next_round(self, seed: usize, at: Instant) -> LobbyView {
        let round = self.round_number + 1;
        let attacking = if round == HALFTIME_ROUND {
            self.attacking_team.other()
        } else {
            self.attacking_team
        };
        let base = LobbyView {
            round_number: round,
            attacking_team: attacking,
            game_state: GameState::BuildPhase,
            build_phase_start: Some(at),
            bomb_planted: false,
            bomb_plant_time: None,
            ..self
        };
        let reset = base.players.map_values(
            |p: PlayerView| reset_for_round(p, base.spawn_position(p.id)),
        );
        let attackers = base.team_ids(attacking);
        let carrier = if attackers.len() > 0 {
            Some(attackers[seed as int % attackers.len() as int])
        } else {
            self.bomb_carrier_id
        };
        let armed = if attackers.len() > 0 {
            update_player(reset, carrier.unwrap(), |p: PlayerView| with_bomb(p, true))
        } else {
            reset
        };
        let paid = if round == 1 || round == HALFTIME_ROUND {
            armed.map_values(|p: PlayerView| with_money(p, RESET_MONEY as int))
        } else {
            armed
        };
        LobbyView { players: paid, bomb_carrier_id: carrier, ..base }
    }

    /// Whether a game can start: a team game needs a player on each side; a
    /// deathmatch always can.
    pub open spec fn can_start_game(self) -> bool {
        self.can_start_team_game() || self.game_mode == GameMode::Deathmatch
    }

    /// The lobby once its game started; a team game begins its first round.
    pub open spec fn started(self, seed: usize, at: Instant) -> LobbyView {
        let s = LobbyView { game_started: true, ..self };
        if self.game_mode == GameMode::TeamVsTeam {
            LobbyView { players: s.at_spawn_points(), ..s }.next_round(seed, at)
        } else {
            s
        }
    }

    /// The build phase ends, and play starts at instant `at`.
    pub open spec fn build_ended(self, at: Instant) -> LobbyView {
        if self.game_state == GameState::BuildPhase {
            LobbyView {
                game_state: GameState::Playing,
                round_start_time: Some(at),
                ..self
            }
        } else {
            self
        }
    }

    /// Whether the build phase is over, `since_start` milliseconds after it began.
    pub open spec fn build_phase_over(self, since_start: Option<u64>) -> bool {
        &&& self.game_state == GameState::BuildPhase
        &&& self.build_phase_start is Some
        &&& since_start matches Some(ms) && ms >= BUILD_PHASE_MS
    }

    /// Whether `id` may plant: play is on, no bomb is planted, and `id` carries it.
    pub open spec fn can_plant(self, id: Seq<char>) -> bool {
        &&& self.game_state == GameState::Playing
        &&& !self.bomb_planted
        &&& self.bomb_carrier_id == Some(id)
    }

    /// Where the bomb goes down (x, z): where the client says, else where the
    /// planter stands, else the origin.
    pub open spec fn plant_spot(self, id: Seq<char>, x: Option<u32>, z: Option<u32>) -> (u32, u32) {
        if x is Some && z is Some {
            (x.unwrap(), z.unwrap())
        } else if has_player(self.players, id) {
            (player_of(self.players, id).x, player_of(self.players, id).z)
        } else {
            (BITS_ZERO, BITS_ZERO)
        }
    }

    /// The lobby after `id` planted the bomb at instant `at`.
    pub open spec fn planted(self, id: Seq<char>, x: Option<u32>, z: Option<u32>, at: Instant) -> LobbyView {
        let spot = self.plant_spot(id, x, z);
        LobbyView {
            bomb_planted: true,
            bomb_plant_time: Some(at),
            bomb_carrier_id: None,
            bomb_position: Some((spot.0, BITS_ONE, spot.1)),
            players: update_player(self.players, id, |p: PlayerView| with_bomb(p, false)),
            ..self
        }
    }

    /// The lobby once a round ended at instant `at`: the winner scores, both
    /// teams are paid, and the match ends when a team reached the winning score.
    pub open spec fn round_ended(self, winner: TeamColor, at: Instant) -> LobbyView {
        let orange = self.orange_score + if winner == TeamColor::Orange {
            1int
        } else {
            0int
        };
        let red = self.red_score + if winner == TeamColor::Red {
            1int
        } else {
            0int
        };
        let paid = award(
            award(self.players, self.team_ids(winner), WIN_BONUS as int),
            self.team_ids(winner.other()),
            LOSS_BONUS as int,
        );
        LobbyView {
            game_state: if orange >= ROUND_WINS_TO_WIN_MATCH || red >= ROUND_WINS_TO_WIN_MATCH {
                GameState::MatchEnd
            } else {
                GameState::RoundEnd
            },
            round_end_time: Some(at),
            orange_score: orange,
            red_score: red,
            players: paid,
            ..self
        }
    }

    /// Whether the round is lost by the attackers on time, `since_start`
    /// milliseconds after play started.
    pub open spec fn round_timed_out(self, since_start: Option<u64>) -> bool {
        &&& !self.bomb_planted
        &&& self.game_state == GameState::Playing
        &&& self.round_start_time is Some
        &&& since_start matches Some(ms) && ms >= ROUND_TIMER_SECS * 1000
    }

    /// Whether the bomb goes off, `since_plant` milliseconds after the plant.
    pub open spec fn bomb_goes_off(self, since_plant: Option<u64>) -> bool {
        &&& self.bomb_planted
        &&& self.bomb_plant_time is Some
        &&& since_plant matches Some(ms) && ms >= BOMB_TIMER_SECS * 1000
    }

    /// The bomb is no longer planted.
    pub open spec fn bomb_cleared(self) -> LobbyView {
        LobbyView { bomb_planted: false, bomb_plant_time: None, ..self }
    }

    /// Whether `id` defuses the bomb, where `within_reach` says whether the
    /// player stands close enough to it.
    pub open spec fn can_defuse(self, id: Seq<char>, within_reach: bool) -> bool {
        &&& self.bomb_planted
        &&& self.team_ids(self.defending_team()).contains(id)
        &&& has_player(self.players, id)
        &&& player_of(self.players, id).alive
        &&& self.bomb_position is Some
        &&& within_reach
    }

    pub open spec fn defused(self, at: Instant) -> LobbyView {
        LobbyView { bomb_position: None, ..self.bomb_cleared() }.round_ended(
            self.defending_team(),
            at,
        )
    }

    /// Whether the next round is due, `since_end` milliseconds after the last ended.
    pub open spec fn restart_due(self, since_end: Option<u64>) -> bool {
        &&& self.game_state == GameState::RoundEnd
        &&& self.round_end_time is Some
        &&& since_end matches Some(ms) && ms >= ROUND_RESTART_MS
    }

    /// Whether some player of `team` is alive.
    pub open spec fn team_alive(self, team: TeamColor) -> bool {
        exists|i: int|
            0 <= i < self.team_ids(team).len() && has_player(
                self.players,
                #[trigger] self.team_ids(team)[i],
            ) && player_of(self.players, self.team_ids(team)[i]).alive
    }

    /// The team that won by elimination, if any. While the bomb is planted,
    /// the defenders do not win by eliminating the attackers.
    pub open spec fn elimination_winner(self) -> Option<TeamColor> {
        if !(self.game_state == GameState::BuildPhase || self.game_state == GameState::Playing) {
            None
        } else {
            let orange = self.team_alive(TeamColor::Orange);
            let red = self.team_alive(TeamColor::Red);
            let winner = if !orange && red {
                Some(TeamColor::Red)
            } else if orange && !red {
                Some(TeamColor::Orange)
            } else {
                None
            };
            if winner is Some && self.bomb_planted && winner == Some(self.defending_team()) {
                None
            } else {
                winner
            }
        }
    }

    /// Whether `id` drops the bomb: it carries it and is in the lobby.
    pub open spec fn can_drop(self, id: Seq<char>) -> bool {
        &&& self.bomb_carrier_id == Some(id)
        &&& has_player(self.players, id)
    }

    pub open spec fn drop_spot(self, id: Seq<char>) -> (u32, u32, u32) {
        (player_of(self.players, id).x, BITS_ONE, player_of(self.players, id).z)
    }

    pub open spec fn dropped(self, id: Seq<char>) -> LobbyView {
        LobbyView {
            players: update_player(self.players, id, |p: PlayerView| with_bomb(p, false)),
            bomb_carrier_id: None,
            bomb_dropped: true,
            bomb_position: Some(self.drop_spot(id)),
            ..self
        }
    }

    /// Whether `id` picks up the dropped bomb, where `within_reach` says
    /// whether the player stands close enough to it.
    pub open spec fn can_pick_up(self, id: Seq<char>, within_reach: bool) -> bool {
        &&& self.bomb_dropped
        &&& has_player(self.players, id)
        &&& self.team_ids(self.attacking_team).contains(id)
        &&& self.bomb_position is Some
        &&& within_reach
    }

    pub open spec fn picked_up(self, id: Seq<char>) -> LobbyView {
        LobbyView {
            players: update_player(self.players, id, |p: PlayerView| with_bomb(p, true)),
            bomb_carrier_id: Some(id),
            bomb_dropped: false,
            bomb_position: None,
            ..self
        }
    }
}


impl Lobby {
    /// The index of the player with `id`, if there is one.
    fn find(&self, id: &String) -> (r: Option<usize>)
        requires
            self@.wf(),
        ensures
            match r {
                Some(i) => {
                    &&& i < self.players.len()
                    &&& has_player(self@.players, id@)
                    &&& player_index(self@.players, id@) == i
                    &&& player_of(self@.players, id@) == self@.players[i as int]
                },
                None => !has_player(self@.players, id@),
            },
    {
        let r = find_player(&self.players, id);
        proof {
            if let Some(i) = r {
                lemma_found_player(self@.players, id@, i as int);
            }
        }
        r
    }

    fn opened(id: String, mode: GameMode) -> (l: Self)
        ensures
            l@ == LobbyView::opened(id@, mode, l.created_at),
            l@.wf(),
    {
        let l = Lobby {
            id,
            game_mode: mode,
            players: Vec::new(),
            max_players: match mode {
                GameMode::Deathmatch => 20,
                GameMode::TeamVsTeam => 10,
            },
            created_at: clock::now(),
            game_started: match mode {
                GameMode::Deathmatch => true,
                GameMode::TeamVsTeam => false,
            },
            orange_team: Vec::new(),
            red_team: Vec::new(),
            game_state: match mode {
                GameMode::Deathmatch => GameState::Playing,
                GameMode::TeamVsTeam => GameState::WaitingForPlayers,
            },
            round_number: 0,
            orange_score: 0,
            red_score: 0,
            bomb_planted: false,
            bomb_plant_time: None,
            bomb_carrier_id: None,
            bomb_dropped: false,
            bomb_position: None,
            build_phase_start: None,
            round_start_time: None,
            round_end_time: None,
            attacking_team: TeamColor::Red,
            spawn_system: SpawnSystem::new(),
            match_end_announced: false,
        };
        assert(l@ =~= LobbyView::opened(id@, mode, l.created_at));
        l
    }

    /// A deathmatch lobby: up to twenty players, already playing.
    pub fn new_deathmatch(id: String) -> (l: Self)
        ensures
            l@ == LobbyView::opened(id@, GameMode::Deathmatch, l.created_at),
            l@.wf(),
    {
        Self::opened(id, GameMode::Deathmatch)
    }

    /// A team lobby: up to ten players, waiting for the teams to fill.
    pub fn new_team_vs_team(id: String) -> (l: Self)
        ensures
            l@ == LobbyView::opened(id@, GameMode::TeamVsTeam, l.created_at),
            l@.wf(),
    {
        Self::opened(id, GameMode::TeamVsTeam)
    }

    /// Adds `player` unless the lobby is full; a player with the same id is
    /// replaced. Returns whether the player was added.
    pub fn add_player(&mut self, player: Player) -> (added: bool)
        requires
            old(self)@.wf(),
        ensures
            final(self)@.wf(),
            added == old(self)@.has_room(),
            final(self)@ == if added {
                old(self)@.with_player(player@)
            } else {
                old(self)@
            },
    {
        if self.players.len() >= self.max_players {
            return false;
        }
        let id = player.id.clone();
        let ghost p = player@;
        match self.find(&id) {
            Some(i) => {
                self.players.set(i, player);
                proof {
                    lemma_replace_player(old(self)@.players, i as int, p);
                }
                assert(self@.players =~= old(self)@.players.update(i as int, p));
            },
            None => {
                self.players.push(player);
                proof {
                    lemma_push_player(old(self)@.players, p);
                }
                assert(self@.players =~= old(self)@.players.push(p));
            },
        }
        assert(self@ =~= old(self)@.with_player(p));
        true
    }

    /// Removes the player with `player_id` from the lobby and from both teams.
    pub fn remove_player(&mut self, player_id: &str)
        requires
            old(self)@.wf(),
        ensures
            final(self)@.wf(),
            final(self)@ == old(self)@.without_player(player_id@),
    {
        let id = owned(player_id);
        remove_player_from(&mut self.players, &id);
        remove_id_from(&mut self.orange_team, &id);
        remove_id_from(&mut self.red_team, &id);
        proof {
            let o = old(self)@;
            lemma_remove_player(o.players, id@);
            lemma_remove_id(o.orange_team, id@);
            lemma_remove_id(o.red_team, id@);
            lemma_disjoint_within(o.orange_team, o.red_team, self@.orange_team, self@.red_team);
        }
        assert(self@ =~= old(self)@.without_player(player_id@));
    }

    /// Moves the player with `player_id` to `team`. The player first leaves
    /// both teams; the move succeeds when the player is in the lobby and the
    /// team has room.
    pub fn join_team(&mut self, player_id: &str, team: TeamColor) -> (joined: bool)
        requires
            old(self)@.wf(),
        ensures
            final(self)@.wf(),
            joined == old(self)@.can_join(player_id@, team),
            final(self)@ == old(self)@.joined_team(player_id@, team),
    {
        let id = owned(player_id);
        let found = self.find(&id);
        if found.is_none() {
            return false;
        }
        let i = found.unwrap();
        remove_id_from(&mut self.orange_team, &id);
        remove_id_from(&mut self.red_team, &id);
        let ghost o = old(self)@;
        proof {
            lemma_remove_id(o.orange_team, id@);
            lemma_remove_id(o.red_team, id@);
            lemma_disjoint_within(o.orange_team, o.red_team, self@.orange_team, self@.red_team);
        }
        let joined = match team {
            TeamColor::Orange => {
                if self.orange_team.len() < TEAM_CAPACITY {
                    proof {
                        lemma_push_id(self@.orange_team, id@);
                    }
                    let ghost before = self@.orange_team;
                    self.orange_team.push(id);
                    assert(self@.orange_team =~= before.push(id@));
                    let name = owned("orange");
                    self.players[i].team = Some(name);
                    proof {
                        lemma_replace_player(o.players, i as int, with_team(o.players[i as int], "orange"@));
                    }
                    assert(self@.players =~= update_player(o.players, id@, |p: PlayerView| with_team(p, "orange"@)));
                    true
                } else {
                    false
                }
            },
            TeamColor::Red => {
                if self.red_team.len() < TEAM_CAPACITY {
                    proof {
                        lemma_push_id(self@.red_team, id@);
                    }
                    let ghost before = self@.red_team;
                    self.red_team.push(id);
                    assert(self@.red_team =~= before.push(id@));
                    let name = owned("red");
                    self.players[i].team = Some(name);
                    proof {
                        lemma_replace_player(o.players, i as int, with_team(o.players[i as int], "red"@));
                    }
                    assert(self@.players =~= update_player(o.players, id@, |p: PlayerView| with_team(p, "red"@)));
                    true
                } else {
                    false
                }
            },
        };
        proof {
            let r = remove_id(o.orange_team, id@);
            let s = remove_id(o.red_team, id@);
            assert(self@.orange_team.no_duplicates());
            assert(self@.red_team.no_duplicates());
            assert forall|x: Seq<char>| self@.orange_team.contains(x) implies r.contains(x) || x == id@ by {
                if self@.orange_team.contains(x) {
                    let k = choose|k: int| 0 <= k < self@.orange_team.len() && self@.orange_team[k] == x;
                    if k < r.len() {
                        assert(r[k] == x);
                    }
                }
            }
            assert forall|x: Seq<char>| self@.red_team.contains(x) implies s.contains(x) || x == id@ by {
                if self@.red_team.contains(x) {
                    let k = choose|k: int| 0 <= k < self@.red_team.len() && self@.red_team[k] == x;
                    if k < s.len() {
                        assert(s[k] == x);
                    }
                }
            }
            assert forall|a: int, b: int| 0 <= a < self@.orange_team.len() && 0 <= b < self@.red_team.len()
                implies self@.orange_team[a] != self@.red_team[b] by {
                let x = self@.orange_team[a];
                assert(self@.orange_team.contains(x));
                assert(self@.red_team.contains(self@.red_team[b]));
                if x == self@.red_team[b] {
                    if x == id@ {
                    } else {
                        assert(r.contains(x));
                        assert(s.contains(x));
                        let k1 = choose|k: int| 0 <= k < r.len() && r[k] == x;
                        let k2 = choose|k: int| 0 <= k < s.len() && s[k] == x;
                        assert(r[k1] == s[k2]);
                    }
                }
            }
        }
        assert(self@ =~= old(self)@.joined_team(player_id@, team));
        joined
    }

    pub fn can_start_team_game(&self) -> (r: bool)
        ensures
            r == self@.can_start_team_game(),
    {
        matches!(self.game_mode, GameMode::TeamVsTeam) && self.orange_team.len() >= 1
            && self.red_team.len() >= 1
    }

    pub fn switch_sides(&mut self)
        ensures
            final(self)@ == (LobbyView { attacking_team: old(self)@.attacking_team.other(), ..old(self)@ }),
    {
        self.attacking_team = self.attacking_team.opposite();
    }

    /// Where the player with `player_id` spawns.
    pub fn get_spawn_position(&self, player_id: &str) -> (pos: (u32, u32, u32))
        requires
            self@.wf(),
        ensures
            pos == self@.spawn_position(player_id@),
    {
        proof {
            lemma_role_names();
        }
        match self.game_mode {
            GameMode::Deathmatch => (BITS_ZERO, BITS_TEN, BITS_ZERO),
            GameMode::TeamVsTeam => {
                let id = owned(player_id);
                match find_id(&self.orange_team, &id) {
                    Some(i) => {
                        proof {
                            lemma_found_id(self@.orange_team, id@, i as int);
                        }
                        let role = match self.attacking_team {
                            TeamColor::Orange => "attacker",
                            TeamColor::Red => "defender",
                        };
                        self.spawn_system.get_team_spawn_position(role, i)
                    },
                    None => match find_id(&self.red_team, &id) {
                        Some(i) => {
                            proof {
                                lemma_found_id(self@.red_team, id@, i as int);
                            }
                            let role = match self.attacking_team {
                                TeamColor::Red => "attacker",
                                TeamColor::Orange => "defender",
                            };
                            self.spawn_system.get_team_spawn_position(role, i)
                        },
                        None => (BITS_ZERO, BITS_TEN, BITS_ZERO),
                    },
                }
            },
        }
    }

    /// Records the position and view direction of the player with `player_id`.
    pub fn update_player_position(
        &mut self,
        player_id: &str,
        x: u32,
        y: u32,
        z: u32,
        rotation_x: u32,
        rotation_y: u32,
    )
        requires
            old(self)@.wf(),
        ensures
            final(self)@.wf(),
            final(self)@ == (LobbyView {
                players: update_player(
                    old(self)@.players,
                    player_id@,
                    |p: PlayerView| p.moved(x, y, z, rotation_x, rotation_y),
                ),
                ..old(self)@
            }),
    {
        let id = owned(player_id);
        match self.find(&id) {
            Some(i) => {
                self.players[i].update_position(x, y, z, rotation_x, rotation_y);
                proof {
                    let o = old(self)@.players;
                    lemma_replace_player(o, i as int, o[i as int].moved(x, y, z, rotation_x, rotation_y));
                }
            },
            None => {},
        }
        assert(self@ =~= LobbyView {
            players: update_player(
                old(self)@.players,
                player_id@,
                |p: PlayerView| p.moved(x, y, z, rotation_x, rotation_y),
            ),
            ..old(self)@
        });
    }

    /// Counts a kill for the player with `player_id`; returns whether that
    /// player is in the lobby.
    pub fn add_kill_to_player(&mut self, player_id: &str) -> (found: bool)
        requires
            old(self)@.wf(),
            has_player(old(self)@.players, player_id@) ==> player_of(old(self)@.players, player_id@).kills < i32::MAX,
        ensures
            final(self)@.wf(),
            found == has_player(old(self)@.players, player_id@),
            final(self)@ == (LobbyView {
                players: update_player(old(self)@.players, player_id@, |p: PlayerView| p.with_kill()),
                ..old(self)@
            }),
    {
        let id = owned(player_id);
        let found = match self.find(&id) {
            Some(i) => {
                self.players[i].add_kill();
                proof {
                    let o = old(self)@.players;
                    lemma_replace_player(o, i as int, o[i as int].with_kill());
                }
                true
            },
            None => false,
        };
        assert(self@ =~= LobbyView {
            players: update_player(old(self)@.players, player_id@, |p: PlayerView| p.with_kill()),
            ..old(self)@
        });
        found
    }
}


/// Awarding a bonus to the first `k + 1` ids of a list without duplicates
/// differs from awarding it to the first `k` only at the player with id `ids[k]`.
pub proof fn lemma_award_step(ps: Seq<PlayerView>, ids: Seq<Seq<char>>, k: int, bonus: int)
    requires
        ids.no_duplicates(),
        0 <= k < ids.len(),
    ensures
        award(ps, ids.take(k + 1), bonus).len() == ps.len(),
        forall|j: int|
            0 <= j < ps.len() ==> #[trigger] award(ps, ids.take(k + 1), bonus)[j] == if ps[j].id
                == ids[k] {
                PlayerView { money: min(ps[j].money + bonus, MAX_MONEY as int), ..ps[j] }
            } else {
                award(ps, ids.take(k), bonus)[j]
            },
        !ids.take(k).contains(ids[k]),
{
    assert forall|x: Seq<char>| ids.take(k + 1).contains(x) <==> (ids.take(k).contains(x) || x
        == ids[k]) by {
        if ids.take(k + 1).contains(x) {
            let j = choose|j: int| 0 <= j < k + 1 && #[trigger] ids.take(k + 1)[j] == x;
            if j < k {
                assert(ids.take(k)[j] == x);
            }
        }
        if ids.take(k).contains(x) {
            let j = choose|j: int| 0 <= j < k && #[trigger] ids.take(k)[j] == x;
            assert(ids.take(k + 1)[j] == x);
        }
        if x == ids[k] {
            assert(ids.take(k + 1)[k] == x);
        }
    }
    if ids.take(k).contains(ids[k]) {
        let j = choose|j: int| 0 <= j < k && #[trigger] ids.take(k)[j] == ids[k];
        assert(ids[j] == ids[k]);
    }
}

impl Lobby {
    /// Pays `bonus` to every player of `team`, up to [`MAX_MONEY`].
    fn award_team(&mut self, team: TeamColor, bonus: i32)
        requires
            old(self)@.wf(),
            0 <= bonus <= MAX_MONEY,
        ensures
            final(self)@.wf(),
            final(self)@ == (LobbyView {
                players: award(old(self)@.players, old(self)@.team_ids(team), bonus as int),
                ..old(self)@
            }),
    {
        let n = match team {
            TeamColor::Orange => self.orange_team.len(),
            TeamColor::Red => self.red_team.len(),
        };
        let ghost o = old(self)@;
        let ghost ids = o.team_ids(team);
        assert(ids.take(0) =~= Seq::<Seq<char>>::empty());
        assert(award(o.players, ids.take(0), bonus as int) =~= o.players);
        let mut k: usize = 0;
        while k < n
            invariant
                o == old(self)@,
                ids == o.team_ids(team),
                o.wf(),
                n == ids.len(),
                0 <= bonus <= MAX_MONEY,
                k <= n,
                self@ == (LobbyView { players: award(o.players, ids.take(k as int), bonus as int), ..o }),
            decreases n - k,
        {
            let id = match team {
                TeamColor::Orange => self.orange_team[k].clone(),
                TeamColor::Red => self.red_team[k].clone(),
            };
            proof {
                lemma_award_step(o.players, ids, k as int, bonus as int);
            }
            let ghost before = self@.players;
            match find_player(&self.players, &id) {
                Some(i) => {
                    let m = self.players[i].money;
                    let paid = if m > MAX_MONEY - bonus {
                        MAX_MONEY
                    } else {
                        m + bonus
                    };
                    self.players[i].money = paid;
                    proof {
                        assert(before.len() == o.players.len());
                        assert(before[i as int] == award(o.players, ids.take(k as int), bonus as int)[i as int]);
                        assert(before[i as int].id == ids[k as int]);
                        assert(before[i as int].id == o.players[i as int].id);
                        assert(!ids.take(k as int).contains(o.players[i as int].id));
                        assert(before[i as int] == o.players[i as int]);
                        assert forall|j: int| 0 <= j < o.players.len() implies #[trigger] self@.players[j]
                            == award(o.players, ids.take(k + 1), bonus as int)[j] by {
                            if j != i {
                                assert(o.players[j].id != o.players[i as int].id);
                            }
                        }
                    }
                    assert(self@.players =~= award(o.players, ids.take(k + 1), bonus as int));
                },
                None => {
                    proof {
                        assert forall|j: int| 0 <= j < o.players.len() implies #[trigger] self@.players[j]
                            == award(o.players, ids.take(k + 1), bonus as int)[j] by {
                            assert(before[j].id == o.players[j].id);
                            if o.players[j].id == ids[k as int] {
                                assert(self@.players[j].id == id@);
                            }
                        }
                    }
                    assert(self@.players =~= award(o.players, ids.take(k + 1), bonus as int));
                },
            }
            k = k + 1;
        }
        assert(ids.take(n as int) =~= ids);
        proof {
            let ps = self@.players;
            assert forall|j: int| 0 <= j < ps.len() implies #[trigger] ps[j].id == o.players[j].id by {}
            assert forall|a: int, b: int| 0 <= a < ps.len() && 0 <= b < ps.len() && #[trigger] ps[a].id
                == #[trigger] ps[b].id implies a == b by {
                assert(o.players[a].id == o.players[b].id);
            }
        }
    }

    /// Ends the round in favour of `winner`: the winner scores, the winning
    /// team is paid the win bonus and the losing team the loss bonus, and the
    /// match ends once a team has won enough rounds.
    pub fn end_round(&mut self, winner: TeamColor, reason: RoundEndReason)
        requires
            old(self)@.wf(),
            old(self).orange_score < i32::MAX,
            old(self).red_score < i32::MAX,
        ensures
            final(self)@.wf(),
            final(self).round_end_time is Some,
            final(self)@ == old(self)@.round_ended(winner, final(self).round_end_time.unwrap()),
    {
        let _ = reason;
        self.game_state = GameState::RoundEnd;
        self.round_end_time = Some(clock::now());
        match winner {
            TeamColor::Orange => {
                self.orange_score = self.orange_score + 1;
            },
            TeamColor::Red => {
                self.red_score = self.red_score + 1;
            },
        }
        let ghost mid = self@;
        self.award_team(winner, WIN_BONUS);
        self.award_team(winner.opposite(), LOSS_BONUS);
        if self.orange_score >= ROUND_WINS_TO_WIN_MATCH || self.red_score >= ROUND_WINS_TO_WIN_MATCH {
            self.game_state = GameState::MatchEnd;
        }
        assert(self@ =~= old(self)@.round_ended(winner, self.round_end_time.unwrap()));
    }

    /// Ends the build phase: play starts now.
    pub fn end_build_phase(&mut self)
        ensures
            old(self).game_state == GameState::BuildPhase ==> final(self).round_start_time is Some,
            final(self)@ == old(self)@.build_ended(final(self).round_start_time.unwrap()),
    {
        if matches!(self.game_state, GameState::BuildPhase) {
            self.game_state = GameState::Playing;
            self.round_start_time = Some(clock::now());
        }
    }

    /// Ends the build phase if it has lasted long enough, `since_start` being
    /// the milliseconds since it began. Returns whether it ended.
    pub fn check_build_phase_timeout_after(&mut self, since_start: Option<u64>) -> (ended: bool)
        requires
            since_start is Some == old(self).build_phase_start is Some,
        ensures
            ended == old(self)@.build_phase_over(since_start),
            ended ==> final(self).round_start_time is Some,
            final(self)@ == if ended {
                old(self)@.build_ended(final(self).round_start_time.unwrap())
            } else {
                old(self)@
            },
    {
        if matches!(self.game_state, GameState::BuildPhase) {
            if let Some(ms) = since_start {
                if ms >= BUILD_PHASE_MS {
                    self.end_build_phase();
                    return true;
                }
            }
        }
        false
    }

    /// Ends the build phase if it has lasted long enough, by the clock.
    pub fn check_build_phase_timeout(&mut self) -> (ended: bool)
        ensures
            exists|since: Option<u64>|
                {
                    &&& since is Some == old(self).build_phase_start is Some
                    &&& ended == old(self)@.build_phase_over(since)
                    &&& final(self)@ == if ended {
                        old(self)@.build_ended(final(self).round_start_time.unwrap())
                    } else {
                        old(self)@
                    }
                },
            ended ==> final(self).round_start_time is Some,
    {
        let since = match &self.build_phase_start {
            Some(t) => Some(clock::elapsed_millis(t)),
            None => None,
        };
        self.check_build_phase_timeout_after(since)
    }

    /// Plants the bomb for `player_id`, at the given spot or else where the
    /// player stands. Returns the spot (x, z), or `None` when the player may
    /// not plant.
    pub fn plant_bomb(&mut self, player_id: &str, position_x: Option<u32>, position_z: Option<u32>) -> (spot: Option<(u32, u32)>)
        requires
            old(self)@.wf(),
        ensures
            final(self)@.wf(),
            spot is Some == old(self)@.can_plant(player_id@),
            old(self)@.can_plant(player_id@) ==> {
                &&& final(self).bomb_plant_time is Some
                &&& spot == Some(old(self)@.plant_spot(player_id@, position_x, position_z))
                &&& final(self)@ == old(self)@.planted(
                    player_id@,
                    position_x,
                    position_z,
                    final(self).bomb_plant_time.unwrap(),
                )
            },
            !old(self)@.can_plant(player_id@) ==> final(self)@ == old(self)@,
    {
        let id = owned(player_id);
        let carries = match &self.bomb_carrier_id {
            Some(c) => *c == id,
            None => false,
        };
        if !(matches!(self.game_state, GameState::Playing) && !self.bomb_planted && carries) {
            return None;
        }
        self.bomb_planted = true;
        self.bomb_plant_time = Some(clock::now());
        self.bomb_carrier_id = None;
        let found = self.find(&id);
        let ghost o = old(self)@;
        let position = match (position_x, position_z) {
            (Some(x), Some(z)) => (x, z),
            _ => match found {
                Some(i) => (self.players[i].x, self.players[i].z),
                None => (BITS_ZERO, BITS_ZERO),
            },
        };
        match found {
            Some(i) => {
                self.players[i].has_bomb = false;
                proof {
                    lemma_replace_player(o.players, i as int, with_bomb(o.players[i as int], false));
                }
            },
            None => {},
        }
        self.bomb_position = Some((position.0, BITS_ONE, position.1));
        assert(self@ =~= o.planted(player_id@, position_x, position_z, self.bomb_plant_time.unwrap()));
        Some(position)
    }

    /// Ends the round in favour of the defenders when the attackers ran out of
    /// time, `since_start` being the milliseconds since play started. Returns
    /// the winning team, if the round ended.
    pub fn check_round_timeout_after(&mut self, since_start: Option<u64>) -> (winner: Option<TeamColor>)
        requires
            old(self)@.wf(),
            since_start is Some == old(self).round_start_time is Some,
            old(self).orange_score < i32::MAX,
            old(self).red_score < i32::MAX,
        ensures
            final(self)@.wf(),
            winner == if old(self)@.round_timed_out(since_start) {
                Some(old(self)@.defending_team())
            } else {
                None
            },
            final(self)@ == if old(self)@.round_timed_out(since_start) {
                old(self)@.round_ended(old(self)@.defending_team(), final(self).round_end_time.unwrap())
            } else {
                old(self)@
            },
    {
        if self.bomb_planted {
            return None;
        }
        if matches!(self.game_state, GameState::Playing) {
            if let Some(ms) = since_start {
                if ms >= ROUND_TIMER_SECS * 1000 {
                    let defending = self.attacking_team.opposite();
                    self.end_round(defending, RoundEndReason::TimeUp);
                    return Some(defending);
                }
            }
        }
        None
    }

    /// Ends the round in favour of the defenders when the attackers ran out of
    /// time, by the clock.
    pub fn check_round_timeout(&mut self) -> (winner: Option<TeamColor>)
        requires
            old(self)@.wf(),
            old(self).orange_score < i32::MAX,
            old(self).red_score < i32::MAX,
        ensures
            final(self)@.wf(),
            exists|since: Option<u64>|
                {
                    &&& since is Some == old(self).round_start_time is Some
                    &&& winner == if old(self)@.round_timed_out(since) {
                        Some(old(self)@.defending_team())
                    } else {
                        None
                    }
                    &&& final(self)@ == if old(self)@.round_timed_out(since) {
                        old(self)@.round_ended(
                            old(self)@.defending_team(),
                            final(self).round_end_time.unwrap(),
                        )
                    } else {
                        old(self)@
                    }
                },
    {
        let since = match &self.round_start_time {
            Some(t) => Some(clock::elapsed_millis(t)),
            None => None,
        };
        self.check_round_timeout_after(since)
    }

    /// Explodes the bomb if its timer ran out, `since_plant` being the
    /// milliseconds since the plant: the attackers win the round. Returns
    /// whether it exploded.
    pub fn check_bomb_explosion_after(&mut self, since_plant: Option<u64>) -> (exploded: bool)
        requires
            old(self)@.wf(),
            since_plant is Some == old(self).bomb_plant_time is Some,
            old(self).orange_score < i32::MAX,
            old(self).red_score < i32::MAX,
        ensures
            final(self)@.wf(),
            exploded == old(self)@.bomb_goes_off(since_plant),
            final(self)@ == if exploded {
                old(self)@.bomb_cleared().round_ended(
                    old(self)@.attacking_team,
                    final(self).round_end_time.unwrap(),
                )
            } else {
                old(self)@
            },
    {
        if self.bomb_planted {
            if let Some(ms) = since_plant {
                if ms >= BOMB_TIMER_SECS * 1000 {
                    self.bomb_planted = false;
                    self.bomb_plant_time = None;
                    let winner = self.attacking_team;
                    self.end_round(winner, RoundEndReason::BombExploded);
                    return true;
                }
            }
        }
        false
    }

    /// Explodes the bomb if its timer ran out, by the clock.
    pub fn check_bomb_explosion(&mut self) -> (exploded: bool)
        requires
            old(self)@.wf(),
            old(self).orange_score < i32::MAX,
            old(self).red_score < i32::MAX,
        ensures
            final(self)@.wf(),
            exists|since: Option<u64>|
                {
                    &&& since is Some == old(self).bomb_plant_time is Some
                    &&& exploded == old(self)@.bomb_goes_off(since)
                    &&& final(self)@ == if exploded {
                        old(self)@.bomb_cleared().round_ended(
                            old(self)@.attacking_team,
                            final(self).round_end_time.unwrap(),
                        )
                    } else {
                        old(self)@
                    }
                },
    {
        let since = match &self.bomb_plant_time {
            Some(t) => Some(clock::elapsed_millis(t)),
            None => None,
        };
        self.check_bomb_explosion_after(since)
    }

    /// Defuses the planted bomb for `player_id`, a living defender;
    /// `within_reach` says whether the player stands close enough to the bomb.
    /// The defenders win the round. Returns the winning team, if defused.
    pub fn defuse_bomb(&mut self, player_id: &str, within_reach: bool) -> (winner: Option<TeamColor>)
        requires
            old(self)@.wf(),
            old(self).orange_score < i32::MAX,
            old(self).red_score < i32::MAX,
        ensures
            final(self)@.wf(),
            winner == if old(self)@.can_defuse(player_id@, within_reach) {
                Some(old(self)@.defending_team())
            } else {
                None
            },
            final(self)@ == if old(self)@.can_defuse(player_id@, within_reach) {
                old(self)@.defused(final(self).round_end_time.unwrap())
            } else {
                old(self)@
            },
    {
        if !self.bomb_planted {
            return None;
        }
        let defending = self.attacking_team.opposite();
        let id = owned(player_id);
        let found = match defending {
            TeamColor::Orange => find_id(&self.orange_team, &id),
            TeamColor::Red => find_id(&self.red_team, &id),
        };
        proof {
            if let Some(k) = found {
                assert(self@.team_ids(defending)[k as int] == id@);
            }
        }
        let is_defender = found.is_some();
        if !is_defender {
            return None;
        }
        let near_bomb = match self.find(&id) {
            Some(i) => self.players[i].alive && self.bomb_position.is_some() && within_reach,
            None => false,
        };
        if !near_bomb {
            return None;
        }
        self.bomb_planted = false;
        self.bomb_plant_time = None;
        self.bomb_position = None;
        self.end_round(defending, RoundEndReason::BombDefused);
        Some(defending)
    }

    /// Announces the end of the match once: the winner's name, `"orange"` when
    /// orange reached the winning score and `"red"` otherwise.
    pub fn take_match_end_winner(&mut self) -> (winner: Option<&'static str>)
        ensures
            old(self).game_state == GameState::MatchEnd && !old(self).match_end_announced ==> {
                &&& winner is Some
                &&& winner.unwrap()@ == if old(self).orange_score >= ROUND_WINS_TO_WIN_MATCH {
                    "orange"@
                } else {
                    "red"@
                }
                &&& final(self)@ == (LobbyView { match_end_announced: true, ..old(self)@ })
            },
            !(old(self).game_state == GameState::MatchEnd && !old(self).match_end_announced) ==> {
                &&& winner is None
                &&& final(self)@ == old(self)@
            },
    {
        if matches!(self.game_state, GameState::MatchEnd) && !self.match_end_announced {
            self.match_end_announced = true;
            let winner = if self.orange_score >= ROUND_WINS_TO_WIN_MATCH {
                "orange"
            } else {
                "red"
            };
            return Some(winner);
        }
        None
    }

    /// Whether some member of `team` is a living player of the lobby.
    fn team_alive(&self, team: TeamColor) -> (alive: bool)
        requires
            self@.wf(),
        ensures
            alive == self@.team_alive(team),
    {
        let ids = match team {
            TeamColor::Orange => &self.orange_team,
            TeamColor::Red => &self.red_team,
        };
        let mut k: usize = 0;
        while k < ids.len()
            invariant
                self@.wf(),
                ids_view(ids@) == self@.team_ids(team),
                k <= ids.len(),
                forall|j: int|
                    0 <= j < k ==> !(has_player(self@.players, #[trigger] self@.team_ids(team)[j])
                        && player_of(self@.players, self@.team_ids(team)[j]).alive),
            decreases ids.len() - k,
        {
            match self.find(&ids[k]) {
                Some(i) => {
                    if self.players[i].alive {
                        assert(has_player(self@.players, self@.team_ids(team)[k as int])
                            && player_of(self@.players, self@.team_ids(team)[k as int]).alive);
                        return true;
                    }
                },
                None => {},
            }
            k = k + 1;
        }
        false
    }

    /// The team that won by eliminating the other, if any.
    pub fn check_team_elimination(&mut self) -> (winner: Option<TeamColor>)
        requires
            old(self)@.wf(),
        ensures
            winner == old(self)@.elimination_winner(),
            *final(self) == *old(self),
    {
        if !matches!(self.game_state, GameState::BuildPhase | GameState::Playing) {
            return None;
        }
        let orange_alive = self.team_alive(TeamColor::Orange);
        let red_alive = self.team_alive(TeamColor::Red);
        let winner = if !orange_alive && red_alive {
            TeamColor::Red
        } else if orange_alive && !red_alive {
            TeamColor::Orange
        } else {
            return None;
        };
        if self.bomb_planted {
            let defending = self.attacking_team.opposite();
            let winner_is_defender = match (winner, defending) {
                (TeamColor::Orange, TeamColor::Orange) | (TeamColor::Red, TeamColor::Red) => true,
                _ => false,
            };
            if winner_is_defender {
                return None;
            }
        }
        Some(winner)
    }

    /// Drops the bomb where its carrier `player_id` stands. Returns the spot.
    pub fn drop_bomb(&mut self, player_id: &str) -> (spot: Option<(u32, u32, u32)>)
        requires
            old(self)@.wf(),
        ensures
            final(self)@.wf(),
            spot == if old(self)@.can_drop(player_id@) {
                Some(old(self)@.drop_spot(player_id@))
            } else {
                None
            },
            final(self)@ == if old(self)@.can_drop(player_id@) {
                old(self)@.dropped(player_id@)
            } else {
                old(self)@
            },
    {
        let id = owned(player_id);
        let carries = match &self.bomb_carrier_id {
            Some(c) => *c == id,
            None => false,
        };
        if !carries {
            return None;
        }
        match self.find(&id) {
            Some(i) => {
                let position = (self.players[i].x, BITS_ONE, self.players[i].z);
                self.players[i].has_bomb = false;
                self.bomb_carrier_id = None;
                self.bomb_dropped = true;
                self.bomb_position = Some(position);
                proof {
                    let o = old(self)@.players;
                    lemma_replace_player(o, i as int, with_bomb(o[i as int], false));
                }
                assert(self@ =~= old(self)@.dropped(player_id@));
                Some(position)
            },
            None => None,
        }
    }

    /// Gives the dropped bomb to `player_id`, an attacker; `within_reach` says
    /// whether the player stands close enough to it. Returns whether it was
    /// picked up.
    pub fn pickup_bomb(&mut self, player_id: &str, within_reach: bool) -> (picked: bool)
        requires
            old(self)@.wf(),
        ensures
            final(self)@.wf(),
            picked == old(self)@.can_pick_up(player_id@, within_reach),
            final(self)@ == if picked {
                old(self)@.picked_up(player_id@)
            } else {
                old(self)@
            },
    {
        if !self.bomb_dropped {
            return false;
        }
        let id = owned(player_id);
        match self.find(&id) {
            Some(i) => {
                let found_in_team = match self.attacking_team {
                    TeamColor::Red => find_id(&self.red_team, &id),
                    TeamColor::Orange => find_id(&self.orange_team, &id),
                };
                proof {
                    if let Some(k) = found_in_team {
                        assert(self@.team_ids(self@.attacking_team)[k as int] == id@);
                    }
                }
                let is_attacker = found_in_team.is_some();
                if is_attacker && self.bomb_position.is_some() && within_reach {
                    self.players[i].has_bomb = true;
                    self.bomb_carrier_id = Some(id);
                    self.bomb_dropped = false;
                    self.bomb_position = None;
                    proof {
                        let o = old(self)@.players;
                        lemma_replace_player(o, i as int, with_bomb(o[i as int], true));
                    }
                    assert(self@ =~= old(self)@.picked_up(player_id@));
                    true
                } else {
                    false
                }
            },
            None => false,
        }
    }

    /// A dead carrier drops the bomb where they fell. Returns the spot.
    pub fn handle_player_death(&mut self, player_id: &str) -> (spot: Option<(u32, u32, u32)>)
        requires
            old(self)@.wf(),
        ensures
            final(self)@.wf(),
            spot == if old(self)@.can_drop(player_id@) {
                Some(old(self)@.drop_spot(player_id@))
            } else {
                None
            },
            final(self)@ == if old(self)@.can_drop(player_id@) {
                old(self)@.dropped(player_id@)
            } else {
                old(self)@
            },
    {
        let id = owned(player_id);
        let carries = match &self.bomb_carrier_id {
            Some(c) => *c == id,
            None => false,
        };
        if carries {
            return self.drop_bomb(player_id);
        }
        None
    }
}


impl Lobby {
    /// Moves every player to their spawn point.
    fn move_to_spawn_points(&mut self)
        requires
            old(self)@.wf(),
        ensures
            final(self)@.wf(),
            final(self)@ == (LobbyView { players: old(self)@.at_spawn_points(), ..old(self)@ }),
    {
        let ghost o = old(self)@;
        let n = self.players.len();
        let mut k: usize = 0;
        while k < n
            invariant
                o == old(self)@,
                o.wf(),
                n == o.players.len(),
                k <= n,
                self@ == (LobbyView { players: self@.players, ..o }),
                self@.players.len() == n,
                forall|j: int| 0 <= j < k ==> #[trigger] self@.players[j] == o.at_spawn_points()[j],
                forall|j: int| k <= j < n ==> #[trigger] self@.players[j] == o.players[j],
            decreases n - k,
        {
            proof {
                assert forall|j: int| 0 <= j < n implies #[trigger] self@.players[j].id == o.players[j].id by {
                    if j < k {
                        assert(self@.players[j] == o.at_spawn_points()[j]);
                    }
                }
                lemma_same_ids(o.players, self@.players);
            }
            let ghost before = self@.players;
            assert(before[k as int] == o.players[k as int]);
            let id = self.players[k].id.clone();
            let pos = self.get_spawn_position(id.as_str());
            self.players[k].x = pos.0;
            self.players[k].y = pos.1;
            self.players[k].z = pos.2;
            assert(self@.players =~= before.update(k as int, o.at_spawn_points()[k as int]));
            k = k + 1;
        }
        assert(self@.players =~= o.at_spawn_points());
        proof {
            assert forall|j: int| 0 <= j < n implies #[trigger] self@.players[j].id == o.players[j].id by {
                assert(self@.players[j] == o.at_spawn_points()[j]);
            }
            lemma_same_ids(o.players, self@.players);
        }
    }

    /// Every player back at their spawn point, alive, healed and without the bomb.
    fn reset_players_for_round(&mut self)
        requires
            old(self)@.wf(),
        ensures
            final(self)@.wf(),
            final(self)@ == (LobbyView {
                players: old(self)@.players.map_values(
                    |p: PlayerView| reset_for_round(p, old(self)@.spawn_position(p.id)),
                ),
                ..old(self)@
            }),
    {
        let ghost o = old(self)@;
        let ghost target = o.players.map_values(
            |p: PlayerView| reset_for_round(p, o.spawn_position(p.id)),
        );
        let n = self.players.len();
        let mut k: usize = 0;
        while k < n
            invariant
                o == old(self)@,
                o.wf(),
                target == o.players.map_values(
                    |p: PlayerView| reset_for_round(p, o.spawn_position(p.id)),
                ),
                n == o.players.len(),
                k <= n,
                self@ == (LobbyView { players: self@.players, ..o }),
                self@.players.len() == n,
                forall|j: int| 0 <= j < k ==> #[trigger] self@.players[j] == target[j],
                forall|j: int| k <= j < n ==> #[trigger] self@.players[j] == o.players[j],
            decreases n - k,
        {
            proof {
                assert forall|j: int| 0 <= j < n implies #[trigger] self@.players[j].id == o.players[j].id by {
                    if j < k {
                        assert(self@.players[j] == target[j]);
                    }
                }
                lemma_same_ids(o.players, self@.players);
            }
            let ghost before = self@.players;
            assert(before[k as int] == o.players[k as int]);
            let id = self.players[k].id.clone();
            let pos = self.get_spawn_position(id.as_str());
            self.players[k].x = pos.0;
            self.players[k].y = pos.1;
            self.players[k].z = pos.2;
            self.players[k].alive = true;
            self.players[k].health = FULL_HEALTH;
            self.players[k].shield = FULL_SHIELD;
            self.players[k].has_bomb = false;
            assert(self@.players =~= before.update(k as int, target[k as int]));
            k = k + 1;
        }
        assert(self@.players =~= target);
        proof {
            assert forall|j: int| 0 <= j < n implies #[trigger] self@.players[j].id == o.players[j].id by {
                assert(self@.players[j] == target[j]);
            }
            lemma_same_ids(o.players, self@.players);
        }
    }

    /// Gives the bomb to the attacker that `seed` picks, if the attacking team
    /// has members.
    fn hand_out_bomb(&mut self, seed: usize)
        requires
            old(self)@.wf(),
        ensures
            final(self)@.wf(),
            ({
                let attackers = old(self)@.team_ids(old(self)@.attacking_team);
                if attackers.len() > 0 {
                    let carrier = attackers[seed as int % attackers.len() as int];
                    final(self)@ == (LobbyView {
                        players: update_player(
                            old(self)@.players,
                            carrier,
                            |p: PlayerView| with_bomb(p, true),
                        ),
                        bomb_carrier_id: Some(carrier),
                        ..old(self)@
                    })
                } else {
                    final(self)@ == old(self)@
                }
            }),
    {
        let n = match self.attacking_team {
            TeamColor::Orange => self.orange_team.len(),
            TeamColor::Red => self.red_team.len(),
        };
        if n > 0 {
            let index = seed % n;
            let carrier = match self.attacking_team {
                TeamColor::Orange => self.orange_team[index].clone(),
                TeamColor::Red => self.red_team[index].clone(),
            };
            match self.find(&carrier) {
                Some(i) => {
                    self.players[i].has_bomb = true;
                    proof {
                        let o = old(self)@.players;
                        lemma_replace_player(o, i as int, with_bomb(o[i as int], true));
                    }
                },
                None => {},
            }
            self.bomb_carrier_id = Some(carrier);
            proof {
                let attackers = old(self)@.team_ids(old(self)@.attacking_team);
                assert(carrier@ == attackers[seed as int % attackers.len() as int]);
            }
            assert(self@ =~= LobbyView {
                players: update_player(
                    old(self)@.players,
                    carrier@,
                    |p: PlayerView| with_bomb(p, true),
                ),
                bomb_carrier_id: Some(carrier@),
                ..old(self)@
            });
        }
    }

    /// Every player is given the reset amount of money.
    fn reset_economy(&mut self)
        requires
            old(self)@.wf(),
        ensures
            final(self)@.wf(),
            final(self)@ == (LobbyView {
                players: old(self)@.players.map_values(
                    |p: PlayerView| with_money(p, RESET_MONEY as int),
                ),
                ..old(self)@
            }),
    {
        let ghost o = old(self)@;
        let ghost target = o.players.map_values(|p: PlayerView| with_money(p, RESET_MONEY as int));
        let n = self.players.len();
        let mut k: usize = 0;
        while k < n
            invariant
                o == old(self)@,
                target == o.players.map_values(|p: PlayerView| with_money(p, RESET_MONEY as int)),
                n == o.players.len(),
                k <= n,
                self@ == (LobbyView { players: self@.players, ..o }),
                self@.players.len() == n,
                forall|j: int| 0 <= j < k ==> #[trigger] self@.players[j] == target[j],
                forall|j: int| k <= j < n ==> #[trigger] self@.players[j] == o.players[j],
            decreases n - k,
        {
            let ghost before = self@.players;
            assert(before[k as int] == o.players[k as int]);
            self.players[k].money = RESET_MONEY;
            assert(self@.players =~= before.update(k as int, target[k as int]));
            k = k + 1;
        }
        assert(self@.players =~= target);
        proof {
            assert forall|j: int| 0 <= j < n implies #[trigger] self@.players[j].id == o.players[j].id by {
                assert(self@.players[j] == target[j]);
            }
            lemma_same_ids(o.players, self@.players);
        }
    }

    /// Starts the next round with the bomb going to the attacker that `seed`
    /// picks: the build phase begins, every player respawns, and at the first
    /// round and at halftime the economy is reset (halftime also switches
    /// sides). Returns whether the sides were switched.
    pub fn start_new_round_seeded(&mut self, seed: usize) -> (switched: bool)
        requires
            old(self)@.wf(),
            old(self).round_number < i32::MAX,
        ensures
            final(self)@.wf(),
            final(self).build_phase_start is Some,
            switched == old(self)@.next_round_switches(),
            final(self)@ == old(self)@.next_round(seed, final(self).build_phase_start.unwrap()),
    {
        self.round_number = self.round_number + 1;
        let switched = self.round_number == HALFTIME_ROUND;
        if switched {
            self.attacking_team = self.attacking_team.opposite();
        }
        self.game_state = GameState::BuildPhase;
        self.build_phase_start = Some(clock::now());
        self.bomb_planted = false;
        self.bomb_plant_time = None;
        let ghost base = self@;
        self.reset_players_for_round();
        let ghost reset = self@;
        self.hand_out_bomb(seed);
        if self.round_number == 1 || self.round_number == HALFTIME_ROUND {
            self.reset_economy();
        }
        assert(self@ =~= old(self)@.next_round(seed, self.build_phase_start.unwrap()));
        switched
    }

    /// Starts the next round, the bomb going to an attacker picked by the
    /// clock. Returns whether the sides were switched.
    pub fn start_new_round(&mut self) -> (switched: bool)
        requires
            old(self)@.wf(),
            old(self).round_number < i32::MAX,
        ensures
            final(self)@.wf(),
            final(self).build_phase_start is Some,
            switched == old(self)@.next_round_switches(),
            exists|seed: usize|
                final(self)@ == old(self)@.next_round(seed, final(self).build_phase_start.unwrap()),
    {
        let seed = match clock::clock_nanos() {
            Some(n) => n as usize,
            None => (self.round_number + 1) as usize,
        };
        self.start_new_round_seeded(seed)
    }

    /// Starts the game when it can start, with the bomb going to the attacker
    /// that `seed` picks. Returns whether it started.
    pub fn start_game_seeded(&mut self, seed: usize) -> (started: bool)
        requires
            old(self)@.wf(),
            old(self).round_number < i32::MAX,
        ensures
            final(self)@.wf(),
            started == old(self)@.can_start_game(),
            started && old(self).game_mode == GameMode::TeamVsTeam ==> final(self).build_phase_start is Some,
            final(self)@ == if started {
                old(self)@.started(seed, final(self).build_phase_start.unwrap())
            } else {
                old(self)@
            },
    {
        if self.can_start_team_game() || matches!(self.game_mode, GameMode::Deathmatch) {
            self.game_started = true;
            if matches!(self.game_mode, GameMode::TeamVsTeam) {
                self.move_to_spawn_points();
                self.start_new_round_seeded(seed);
            }
            true
        } else {
            false
        }
    }

    /// Starts the game when it can start, the bomb going to an attacker picked
    /// by the clock. Returns whether it started.
    pub fn start_game(&mut self) -> (started: bool)
        requires
            old(self)@.wf(),
            old(self).round_number < i32::MAX,
        ensures
            final(self)@.wf(),
            started == old(self)@.can_start_game(),
            started && old(self).game_mode == GameMode::TeamVsTeam ==> final(self).build_phase_start is Some,
            exists|seed: usize|
                final(self)@ == if started {
                    old(self)@.started(seed, final(self).build_phase_start.unwrap())
                } else {
                    old(self)@
                },
    {
        let seed = match clock::clock_nanos() {
            Some(n) => n as usize,
            None => (self.round_number + 1) as usize,
        };
        self.start_game_seeded(seed)
    }

    /// Starts the next round once the last ended long enough ago,
    /// `since_end` being the milliseconds since it ended. Returns whether a
    /// round started, and whether it switched sides.
    /// Starts the next round, with the bomb given to the attacker that
    /// `seed` picks, if the last ended `since_end` milliseconds ago and that
    /// is long enough. Returns whether it started, and whether the sides
    /// were switched.
    pub fn check_round_restart_seeded(&mut self, since_end: Option<u64>, seed: usize) -> (r: (bool, bool))
        requires
            old(self)@.wf(),
            old(self).round_number < i32::MAX,
        ensures
            final(self)@.wf(),
            r.0 == old(self)@.restart_due(since_end),
            r.0 ==> {
                &&& final(self).build_phase_start is Some
                &&& r.1 == old(self)@.next_round_switches()
                &&& final(self)@ == old(self)@.next_round(seed, final(self).build_phase_start.unwrap())
            },
            !r.0 ==> !r.1 && final(self)@ == old(self)@,
    {
        if matches!(self.game_state, GameState::RoundEnd) && self.round_end_time.is_some() {
            if let Some(ms) = since_end {
                if ms >= ROUND_RESTART_MS {
                    let switched = self.start_new_round_seeded(seed);
                    return (true, switched);
                }
            }
        }
        (false, false)
    }

    pub fn check_round_restart_after(&mut self, since_end: Option<u64>) -> (r: (bool, bool))
        requires
            old(self)@.wf(),
            since_end is Some == old(self).round_end_time is Some,
            old(self).round_number < i32::MAX,
        ensures
            final(self)@.wf(),
            r.0 == old(self)@.restart_due(since_end),
            r.0 ==> {
                &&& final(self).build_phase_start is Some
                &&& r.1 == old(self)@.next_round_switches()
                &&& exists|seed: usize|
                    final(self)@ == old(self)@.next_round(seed, final(self).build_phase_start.unwrap())
            },
            !r.0 ==> !r.1 && final(self)@ == old(self)@,
    {
        if matches!(self.game_state, GameState::RoundEnd) {
            if let Some(ms) = since_end {
                if ms >= ROUND_RESTART_MS {
                    let switched = self.start_new_round();
                    return (true, switched);
                }
            }
        }
        (false, false)
    }

    /// Starts the next round once the last ended long enough ago, by the clock.
    pub fn check_round_restart(&mut self) -> (r: (bool, bool))
        requires
            old(self)@.wf(),
            old(self).round_number < i32::MAX,
        ensures
            final(self)@.wf(),
            exists|since: Option<u64>|
                {
                    &&& since is Some == old(self).round_end_time is Some
                    &&& r.0 == old(self)@.restart_due(since)
                },
            r.0 ==> {
                &&& final(self).build_phase_start is Some
                &&& r.1 == old(self)@.next_round_switches()
                &&& exists|seed: usize|
                    final(self)@ == old(self)@.next_round(seed, final(self).build_phase_start.unwrap())
            },
            !r.0 ==> !r.1 && final(self)@ == old(self)@,
    {
        let since = match &self.round_end_time {
            Some(t) => Some(clock::elapsed_millis(t)),
            None => None,
        };
        self.check_round_restart_after(since)
    }
}


impl Lobby {
    /// Hits the living player `player_id` for `damage`. Returns whether the
    /// hit killed the player and the health and shield it left, or `None` when
    /// there is no such living player.
    pub fn damage_player(&mut self, player_id: &str, damage: i32) -> (r: Option<(bool, i32, i32)>)
        requires
            old(self)@.wf(),
            has_player(old(self)@.players, player_id@) ==> player_of(
                old(self)@.players,
                player_id@,
            ).hit_fits(damage as int),
        ensures
            final(self)@.wf(),
            r is Some == (has_player(old(self)@.players, player_id@) && player_of(
                old(self)@.players,
                player_id@,
            ).alive),
            r is None ==> final(self)@ == old(self)@,
            r matches Some(t) ==> {
                let hit = player_of(final(self)@.players, player_id@);
                &&& hit.last_hit_time is Some
                &&& final(self)@ == (LobbyView {
                    players: update_player(
                        old(self)@.players,
                        player_id@,
                        |p: PlayerView| p.hit(damage as int, hit.last_hit_time.unwrap()),
                    ),
                    ..old(self)@
                })
                &&& t.0 == player_of(old(self)@.players, player_id@).hit_kills(damage as int)
                &&& t.1 as int == hit.health
                &&& t.2 as int == hit.shield
            },
    {
        let id = owned(player_id);
        match self.find(&id) {
            Some(i) => {
                if !self.players[i].alive {
                    return None;
                }
                let died = self.players[i].take_damage(damage);
                let ghost o = old(self)@.players;
                assert(self@.players =~= o.update(i as int, self@.players[i as int]));
                proof {
                    lemma_replace_player(o, i as int, self@.players[i as int]);
                    lemma_found_player(self@.players, id@, i as int);
                }
                let hit = &self.players[i];
                let r = (died, hit.health, hit.shield);
                assert(self@ =~= LobbyView {
                    players: update_player(
                        o,
                        player_id@,
                        |p: PlayerView| p.hit(damage as int, self@.players[i as int].last_hit_time.unwrap()),
                    ),
                    ..old(self)@
                });
                Some(r)
            },
            None => None,
        }
    }

    /// Respawns the player `player_id` at their spawn point. Returns a copy of
    /// the respawned player.
    pub fn respawn_player(&mut self, player_id: &str) -> (r: Option<Player>)
        requires
            old(self)@.wf(),
        ensures
            final(self)@.wf(),
            r is Some == has_player(old(self)@.players, player_id@),
            final(self)@ == (LobbyView {
                players: update_player(
                    old(self)@.players,
                    player_id@,
                    |p: PlayerView| p.respawned(old(self)@.spawn_position(player_id@)),
                ),
                ..old(self)@
            }),
            r matches Some(p) ==> p@ == player_of(final(self)@.players, player_id@),
    {
        let spawn_pos = self.get_spawn_position(player_id);
        let id = owned(player_id);
        match self.find(&id) {
            Some(i) => {
                self.players[i].respawn(spawn_pos);
                let ghost o = old(self)@.players;
                assert(self@.players =~= o.update(i as int, self@.players[i as int]));
                proof {
                    lemma_replace_player(o, i as int, self@.players[i as int]);
                    lemma_found_player(self@.players, id@, i as int);
                }
                assert(self@ =~= LobbyView {
                    players: update_player(
                        o,
                        player_id@,
                        |p: PlayerView| p.respawned(old(self)@.spawn_position(player_id@)),
                    ),
                    ..old(self)@
                });
                Some(self.players[i].snapshot())
            },
            None => None,
        }
    }

    /// One step of shield regeneration for every player, `since_hit[i]` being
    /// the milliseconds since the `i`-th player was last hit. Returns the id
    /// and new shield of each player whose shield changed.
    pub fn update_shields_after(&mut self, since_hit: &Vec<Option<u64>>) -> (updates: Vec<(String, i32)>)
        requires
            old(self)@.wf(),
            since_hit.len() == old(self).players.len(),
            forall|i: int|
                0 <= i < since_hit.len() ==> (#[trigger] since_hit@[i] is Some
                    == old(self).players@[i].last_hit_time is Some),
        ensures
            final(self)@.wf(),
            final(self)@ == (LobbyView {
                players: regen_all(old(self)@.players, since_hit@),
                ..old(self)@
            }),
            shields_view(updates@) == shield_updates(
                old(self)@.players,
                since_hit@,
                old(self)@.players.len() as int,
            ),
    {
        let ghost o = old(self)@;
        let ghost target = regen_all(o.players, since_hit@);
        let n = self.players.len();
        let mut updates: Vec<(String, i32)> = Vec::new();
        let mut k: usize = 0;
        assert(shields_view(updates@) =~= shield_updates(o.players, since_hit@, 0));
        while k < n
            invariant
                o == old(self)@,
                target == regen_all(o.players, since_hit@),
                n == o.players.len(),
                since_hit.len() == n,
                forall|i: int|
                    0 <= i < since_hit.len() ==> (#[trigger] since_hit@[i] is Some
                        == old(self).players@[i].last_hit_time is Some),
                k <= n,
                self@ == (LobbyView { players: self@.players, ..o }),
                self.players.len() == n,
                forall|j: int| 0 <= j < k ==> #[trigger] self@.players[j] == target[j],
                forall|j: int| k <= j < n ==> #[trigger] self.players@[j] == old(self).players@[j],
                shields_view(updates@) == shield_updates(o.players, since_hit@, k as int),
            decreases n - k,
        {
            let ghost before = self@.players;
            assert(self.players@[k as int] == old(self).players@[k as int]);
            assert(since_hit@[k as int] is Some == old(self).players@[k as int].last_hit_time is Some);
            let changed = self.players[k].regen_shield_after(since_hit[k]);
            assert(self@.players =~= before.update(k as int, target[k as int]));
            if changed {
                let entry = (self.players[k].id.clone(), self.players[k].shield);
                updates.push(entry);
            }
            assert(shields_view(updates@) =~= shield_updates(o.players, since_hit@, k + 1));
            k = k + 1;
        }
        assert(self@.players =~= target);
        proof {
            assert forall|j: int| 0 <= j < n implies #[trigger] self@.players[j].id == o.players[j].id by {
                assert(self@.players[j] == target[j]);
            }
            lemma_same_ids(o.players, self@.players);
        }
        updates
    }

    /// One step of shield regeneration for every player, by the clock.
    /// Returns the id and new shield of each player whose shield changed.
    pub fn update_shields(&mut self) -> (updates: Vec<(String, i32)>)
        requires
            old(self)@.wf(),
        ensures
            final(self)@.wf(),
            exists|since: Seq<Option<u64>>|
                {
                    &&& since.len() == old(self).players.len()
                    &&& forall|i: int|
                        0 <= i < since.len() ==> (#[trigger] since[i] is Some
                            == old(self).players@[i].last_hit_time is Some)
                    &&& final(self)@ == (LobbyView {
                        players: regen_all(old(self)@.players, since),
                        ..old(self)@
                    })
                    &&& shields_view(updates@) == shield_updates(
                        old(self)@.players,
                        since,
                        old(self)@.players.len() as int,
                    )
                },
    {
        let mut since: Vec<Option<u64>> = Vec::new();
        let mut k: usize = 0;
        while k < self.players.len()
            invariant
                k <= self.players.len(),
                since.len() == k,
                forall|i: int|
                    0 <= i < k ==> (#[trigger] since@[i] is Some == self.players@[i].last_hit_time is Some),
            decreases self.players.len() - k,
        {
            let elapsed = match &self.players[k].last_hit_time {
                Some(t) => Some(clock::elapsed_millis(t)),
                None => None,
            };
            since.push(elapsed);
            k = k + 1;
        }
        self.update_shields_after(&since)
    }

    /// The scoreboard as every player's row, most kills first.
    pub fn get_scoreboard_data(&self) -> (rows: Vec<ScoreboardPlayer>)
        ensures
            rows_view(rows@) == ranked(self@.players.map_values(|p: PlayerView| scoreboard_entry(p, None))),
            sorted_by_kills(rows_view(rows@)),
            rows_view(rows@).to_multiset() == self@.players.map_values(
                |p: PlayerView| scoreboard_entry(p, None),
            ).to_multiset(),
    {
        self.get_scoreboard_data_for(None)
    }

    /// The scoreboard as a member of `viewer_team` sees it: every player's
    /// row, most kills first, with money shown for the viewer's own team.
    pub fn get_scoreboard_data_for(&self, viewer_team: Option<&str>) -> (rows: Vec<ScoreboardPlayer>)
        ensures
            rows_view(rows@) == ranked(
                self@.players.map_values(|p: PlayerView| scoreboard_entry(p, opt_str(viewer_team))),
            ),
            sorted_by_kills(rows_view(rows@)),
            rows_view(rows@).to_multiset() == self@.players.map_values(
                |p: PlayerView| scoreboard_entry(p, opt_str(viewer_team)),
            ).to_multiset(),
    {
        let ghost entries = self@.players.map_values(
            |p: PlayerView| scoreboard_entry(p, opt_str(viewer_team)),
        );
        let mut rows: Vec<ScoreboardPlayer> = Vec::new();
        let n = self.players.len();
        let mut k: usize = 0;
        assert(entries.take(0) =~= Seq::<ScoreboardView>::empty());
        assert(rows_view(rows@) =~= Seq::<ScoreboardView>::empty());
        assert(ranked(entries.take(0)) =~= Seq::<ScoreboardView>::empty());
        while k < n
            invariant
                n == self.players.len(),
                entries == self@.players.map_values(
                    |p: PlayerView| scoreboard_entry(p, opt_str(viewer_team)),
                ),
                k <= n,
                rows_view(rows@) == ranked(entries.take(k as int)),
                sorted_by_kills(rows_view(rows@)),
                rows_view(rows@).to_multiset() == entries.take(k as int).to_multiset(),
            decreases n - k,
        {
            let p = &self.players[k];
            let same_team = match (viewer_team, &p.team) {
                (Some(vt), Some(pt)) => same_text(vt, pt.as_str()),
                _ => false,
            };
            let row = ScoreboardPlayer {
                id: p.id.clone(),
                name: p.name.clone(),
                kills: p.kills,
                deaths: p.deaths,
                team: match &p.team {
                    Some(t) => Some(t.clone()),
                    None => None,
                },
                money: if same_team {
                    Some(p.money)
                } else {
                    None
                },
                alive: p.alive,
                has_bomb: p.has_bomb,
            };
            assert(row@ == entries[k as int]);
            let mut pos: usize = 0;
            while pos < rows.len() && rows[pos].kills >= row.kills
                invariant
                    pos <= rows.len(),
                    forall|j: int| 0 <= j < pos ==> #[trigger] rows@[j].kills >= row.kills,
                decreases rows.len() - pos,
            {
                pos = pos + 1;
            }
            let ghost old_rows = rows_view(rows@);
            proof {
                assert forall|j: int| pos <= j < old_rows.len() implies #[trigger] old_rows[j].kills
                    < row@.kills by {
                    assert(old_rows[pos as int].kills < row@.kills);
                    if j > pos {
                        assert(old_rows[pos as int].kills >= old_rows[j].kills);
                    }
                }
            }
            proof {
                lemma_insert_by_kills(old_rows, entries[k as int], pos as int);
            }
            rows.insert(pos, row);
            assert(rows_view(rows@) =~= old_rows.insert(pos as int, entries[k as int]));
            assert(entries.take(k + 1) =~= entries.take(k as int).push(entries[k as int]));
            assert(entries.take(k + 1).drop_last() =~= entries.take(k as int));
            proof {
                vstd::seq_lib::to_multiset_insert(old_rows, pos as int, entries[k as int]);
                vstd::seq_lib::to_multiset_build(entries.take(k as int), entries[k as int]);
            }
            proof {
                let nr = rows_view(rows@);
                assert forall|i: int, j: int| 0 <= i < j < nr.len() implies nr[i].kills >= nr[j].kills by {
                    if i < pos && j < pos {
                        assert(nr[i] == old_rows[i]);
                        assert(nr[j] == old_rows[j]);
                    } else if i < pos && j == pos {
                        assert(nr[i] == old_rows[i]);
                    } else if i < pos && j > pos {
                        assert(nr[i] == old_rows[i]);
                        assert(nr[j] == old_rows[j - 1]);
                    } else if i == pos {
                        assert(nr[j] == old_rows[j - 1]);
                    } else {
                        assert(nr[i] == old_rows[i - 1]);
                        assert(nr[j] == old_rows[j - 1]);
                    }
                }
            }
            k = k + 1;
        }
        assert(entries.take(n as int) =~= entries);
        rows
    }

    /// The (id, name) of each team member who is in the lobby, in team order,
    /// for the orange and then the red team.
    pub fn get_team_data(&self) -> (teams: (Vec<(String, String)>, Vec<(String, String)>))
        requires
            self@.wf(),
        ensures
            pairs_view(teams.0@) == team_roster(self@.orange_team, self@.players),
            pairs_view(teams.1@) == team_roster(self@.red_team, self@.players),
    {
        let orange = self.roster_of(&self.orange_team);
        let red = self.roster_of(&self.red_team);
        (orange, red)
    }

    fn roster_of(&self, ids: &Vec<String>) -> (pairs: Vec<(String, String)>)
        requires
            self@.wf(),
        ensures
            pairs_view(pairs@) == team_roster(ids_view(ids@), self@.players),
    {
        let ghost iv = ids_view(ids@);
        let ghost f = |id: Seq<char>|
            if has_player(self@.players, id) {
                Some((id, player_of(self@.players, id).name))
            } else {
                None
            };
        let mut pairs: Vec<(String, String)> = Vec::new();
        let mut k: usize = 0;
        assert(iv.take(0) =~= Seq::<Seq<char>>::empty());
        assert(pairs_view(pairs@) =~= iv.take(0).filter_map(f));
        while k < ids.len()
            invariant
                iv == ids_view(ids@),
                self@.wf(),
                f == (|id: Seq<char>|
                    if has_player(self@.players, id) {
                        Some((id, player_of(self@.players, id).name))
                    } else {
                        None
                    }),
                k <= ids.len(),
                pairs_view(pairs@) == iv.take(k as int).filter_map(f),
            decreases ids.len() - k,
        {
            proof {
                iv.lemma_filter_map_take_succ(f, k as int);
            }
            match self.find(&ids[k]) {
                Some(i) => {
                    let entry = (ids[k].clone(), self.players[i].name.clone());
                    pairs.push(entry);
                },
                None => {},
            }
            assert(pairs_view(pairs@) =~= iv.take(k + 1).filter_map(f));
            k = k + 1;
        }
        assert(iv.take(ids.len() as int) =~= iv);
        pairs
    }
}

} // verus!
