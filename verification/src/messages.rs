//! The protocol: what clients send and what the server reports back.
//!
//! Coordinates travel as the bit patterns of `f32` values (`f32::to_bits`).
use crate::player::{Player, PlayerView};
use vstd::prelude::*;

verus! {

/// One row of a scoreboard. `money` is shown only to the player's own team.
#[derive(Debug)]
pub struct ScoreboardPlayer {
    pub id: String,
    pub name: String,
    pub kills: i32,
    pub deaths: i32,
    pub team: Option<String>,
    pub money: Option<i32>,
    pub alive: bool,
    pub has_bomb: bool,
}

pub struct ScoreboardView {
    pub id: Seq<char>,
    pub name: Seq<char>,
    pub kills: int,
    pub deaths: int,
    pub team: Option<Seq<char>>,
    pub money: Option<int>,
    pub alive: bool,
    pub has_bomb: bool,
}

impl View for ScoreboardPlayer {
    type V = ScoreboardView;

    open spec fn view(&self) -> ScoreboardView {
        ScoreboardView {
            id: self.id@,
            name: self.name@,
            kills: self.kills as int,
            deaths: self.deaths as int,
            team: crate::player::opt_text(self.team),
            money: match self.money {
                Some(m) => Some(m as int),
                None => None,
            },
            alive: self.alive,
            has_bomb: self.has_bomb,
        }
    }
}

/// A member of a team, as the team lists show it.
#[derive(Debug)]
pub struct TeamPlayer {
    pub id: String,
    pub name: String,
}

pub struct TeamPlayerView {
    pub id: Seq<char>,
    pub name: Seq<char>,
}

impl View for TeamPlayer {
    type V = TeamPlayerView;

    open spec fn view(&self) -> TeamPlayerView {
        TeamPlayerView { id: self.id@, name: self.name@ }
    }
}

pub open spec fn team_players_view(ps: Seq<TeamPlayer>) -> Seq<TeamPlayerView> {
    ps.map_values(|p: TeamPlayer| p@)
}

pub open spec fn scoreboard_view(rows: Seq<ScoreboardPlayer>) -> Seq<ScoreboardView> {
    rows.map_values(|r: ScoreboardPlayer| r@)
}

/// What a client asks of the server.
#[derive(Debug)]
pub enum ClientMessage {
    Join { name: String },
    CreateTeamLobby { name: String },
    JoinTeam { team: String },
    StartTeamGame,
    Move { x: u32, y: u32, z: u32, rotation_x: u32, rotation_y: u32 },
    Shoot {
        start_x: u32,
        start_y: u32,
        start_z: u32,
        target_x: u32,
        target_y: u32,
        target_z: u32,
    },
    Hit { target_player_id: String, killed: bool },
    Respawn,
    PlantBomb { position_x: Option<u32>, position_z: Option<u32> },
    DefuseBomb,
    DropBomb,
    PickupBomb,
    PlaceStructure { structure_type: String, x: u32, y: u32, z: u32 },
    /// A bullet punched a hole in a destructible wall, identified by its
    /// center; `local_x` runs along the wall, `world_y` is the height.
    WallHit { wall_x: u32, wall_z: u32, local_x: u32, world_y: u32, radius: u32 },
}

/// What the server reports to clients.
#[derive(Debug)]
pub enum ServerMessage {
    Welcome { player_id: String, lobby_id: String, game_mode: String },
    TeamLobbyCreated { lobby_id: String },
    TeamUpdate { orange_team: Vec<TeamPlayer>, red_team: Vec<TeamPlayer>, can_start: bool },
    GameStarted { game_mode: String },
    PlayerJoined { player: Player },
    PlayerLeft { player_id: String },
    PlayerMoved { player_id: String, x: u32, y: u32, z: u32, rotation_x: u32, rotation_y: u32 },
    PlayerShot {
        shooter_id: String,
        start_x: u32,
        start_y: u32,
        start_z: u32,
        target_x: u32,
        target_y: u32,
        target_z: u32,
    },
    PlayerHit { player_id: String, damage: i32, health: i32, shield: i32 },
    PlayerDied { player_id: String, killer_id: String, victim_name: String, killer_name: String },
    PlayerRespawned { player: Player },
    ShieldUpdate { player_id: String, shield: i32 },
    MoneyUpdate { player_id: String, money: i32 },
    ScoreboardUpdate { players: Vec<ScoreboardPlayer> },
    RoundStart {
        round_number: i32,
        buy_time: i32,
        orange_score: i32,
        red_score: i32,
        attacking_team: String,
    },
    RoundEnd { winner: String, reason: String, orange_score: i32, red_score: i32 },
    BuildPhaseEnd { round_time: u64 },
    BombPlanted { player_id: String, timer: i32, position_x: u32, position_z: u32 },
    BombDefused { player_id: String },
    BombExploded,
    StructurePlaced { player_id: String, structure_type: String, x: u32, y: u32, z: u32 },
    GiveBomb { player_id: String },
    BombDropped { position_x: u32, position_y: u32, position_z: u32 },
    BombPickedUp { player_id: String, player_name: String },
    MatchEnd { winner: String },
    MapReset,
    /// An authoritative bullet hole in a destructible wall.
    WallHole { wall_x: u32, wall_z: u32, local_x: u32, world_y: u32, radius: u32 },
}

/// The mathematical model of a [`ServerMessage`].
pub enum MessageView {
    Welcome { player_id: Seq<char>, lobby_id: Seq<char>, game_mode: Seq<char> },
    TeamLobbyCreated { lobby_id: Seq<char> },
    TeamUpdate {
        orange_team: Seq<TeamPlayerView>,
        red_team: Seq<TeamPlayerView>,
        can_start: bool,
    },
    GameStarted { game_mode: Seq<char> },
    PlayerJoined { player: PlayerView },
    PlayerLeft { player_id: Seq<char> },
    PlayerMoved {
        player_id: Seq<char>,
        x: u32,
        y: u32,
        z: u32,
        rotation_x: u32,
        rotation_y: u32,
    },
    PlayerShot {
        shooter_id: Seq<char>,
        start_x: u32,
        start_y: u32,
        start_z: u32,
        target_x: u32,
        target_y: u32,
        target_z: u32,
    },
    PlayerHit { player_id: Seq<char>, damage: int, health: int, shield: int },
    PlayerDied {
        player_id: Seq<char>,
        killer_id: Seq<char>,
        victim_name: Seq<char>,
        killer_name: Seq<char>,
    },
    PlayerRespawned { player: PlayerView },
    ShieldUpdate { player_id: Seq<char>, shield: int },
    MoneyUpdate { player_id: Seq<char>, money: int },
    ScoreboardUpdate { players: Seq<ScoreboardView> },
    RoundStart {
        round_number: int,
        buy_time: int,
        orange_score: int,
        red_score: int,
        attacking_team: Seq<char>,
    },
    RoundEnd { winner: Seq<char>, reason: Seq<char>, orange_score: int, red_score: int },
    BuildPhaseEnd { round_time: u64 },
    BombPlanted { player_id: Seq<char>, timer: int, position_x: u32, position_z: u32 },
    BombDefused { player_id: Seq<char> },
    BombExploded,
    StructurePlaced {
        player_id: Seq<char>,
        structure_type: Seq<char>,
        x: u32,
        y: u32,
        z: u32,
    },
    GiveBomb { player_id: Seq<char> },
    BombDropped { position_x: u32, position_y: u32, position_z: u32 },
    BombPickedUp { player_id: Seq<char>, player_name: Seq<char> },
    MatchEnd { winner: Seq<char> },
    MapReset,
    WallHole { wall_x: u32, wall_z: u32, local_x: u32, world_y: u32, radius: u32 },
}

impl View for ServerMessage {
    type V = MessageView;

    open spec fn view(&self) -> MessageView {
        match self {
            ServerMessage::Welcome { player_id, lobby_id, game_mode } => MessageView::Welcome {
                player_id: player_id@,
                lobby_id: lobby_id@,
                game_mode: game_mode@,
            },
            ServerMessage::TeamLobbyCreated { lobby_id } => MessageView::TeamLobbyCreated {
                lobby_id: lobby_id@,
            },
            ServerMessage::TeamUpdate { orange_team, red_team, can_start } => MessageView::TeamUpdate {
                orange_team: team_players_view(orange_team@),
                red_team: team_players_view(red_team@),
                can_start: *can_start,
            },
            ServerMessage::GameStarted { game_mode } => MessageView::GameStarted {
                game_mode: game_mode@,
            },
            ServerMessage::PlayerJoined { player } => MessageView::PlayerJoined { player: player@ },
            ServerMessage::PlayerLeft { player_id } => MessageView::PlayerLeft {
                player_id: player_id@,
            },
            ServerMessage::PlayerMoved { player_id, x, y, z, rotation_x, rotation_y } =>
                MessageView::PlayerMoved {
                player_id: player_id@,
                x: *x,
                y: *y,
                z: *z,
                rotation_x: *rotation_x,
                rotation_y: *rotation_y,
            },
            ServerMessage::PlayerShot {
                shooter_id,
                start_x,
                start_y,
                start_z,
                target_x,
                target_y,
                target_z,
            } => MessageView::PlayerShot {
                shooter_id: shooter_id@,
                start_x: *start_x,
                start_y: *start_y,
                start_z: *start_z,
                target_x: *target_x,
                target_y: *target_y,
                target_z: *target_z,
            },
            ServerMessage::PlayerHit { player_id, damage, health, shield } => MessageView::PlayerHit {
                player_id: player_id@,
                damage: *damage as int,
                health: *health as int,
                shield: *shield as int,
            },
            ServerMessage::PlayerDied { player_id, killer_id, victim_name, killer_name } =>
                MessageView::PlayerDied {
                player_id: player_id@,
                killer_id: killer_id@,
                victim_name: victim_name@,
                killer_name: killer_name@,
            },
            ServerMessage::PlayerRespawned { player } => MessageView::PlayerRespawned {
                player: player@,
            },
            ServerMessage::ShieldUpdate { player_id, shield } => MessageView::ShieldUpdate {
                player_id: player_id@,
                shield: *shield as int,
            },
            ServerMessage::MoneyUpdate { player_id, money } => MessageView::MoneyUpdate {
                player_id: player_id@,
                money: *money as int,
            },
            ServerMessage::ScoreboardUpdate { players } => MessageView::ScoreboardUpdate {
                players: scoreboard_view(players@),
            },
            ServerMessage::RoundStart {
                round_number,
                buy_time,
                orange_score,
                red_score,
                attacking_team,
            } => MessageView::RoundStart {
                round_number: *round_number as int,
                buy_time: *buy_time as int,
                orange_score: *orange_score as int,
                red_score: *red_score as int,
                attacking_team: attacking_team@,
            },
            ServerMessage::RoundEnd { winner, reason, orange_score, red_score } =>
                MessageView::RoundEnd {
                winner: winner@,
                reason: reason@,
                orange_score: *orange_score as int,
                red_score: *red_score as int,
            },
            ServerMessage::BuildPhaseEnd { round_time } => MessageView::BuildPhaseEnd {
                round_time: *round_time,
            },
            ServerMessage::BombPlanted { player_id, timer, position_x, position_z } =>
                MessageView::BombPlanted {
                player_id: player_id@,
                timer: *timer as int,
                position_x: *position_x,
                position_z: *position_z,
            },
            ServerMessage::BombDefused { player_id } => MessageView::BombDefused {
                player_id: player_id@,
            },
            ServerMessage::BombExploded => MessageView::BombExploded,
            ServerMessage::StructurePlaced { player_id, structure_type, x, y, z } =>
                MessageView::StructurePlaced {
                player_id: player_id@,
                structure_type: structure_type@,
                x: *x,
                y: *y,
                z: *z,
            },
            ServerMessage::GiveBomb { player_id } => MessageView::GiveBomb {
                player_id: player_id@,
            },
            ServerMessage::BombDropped { position_x, position_y, position_z } =>
                MessageView::BombDropped {
                position_x: *position_x,
                position_y: *position_y,
                position_z: *position_z,
            },
            ServerMessage::BombPickedUp { player_id, player_name } => MessageView::BombPickedUp {
                player_id: player_id@,
                player_name: player_name@,
            },
            ServerMessage::MatchEnd { winner } => MessageView::MatchEnd { winner: winner@ },
            ServerMessage::MapReset => MessageView::MapReset,
            ServerMessage::WallHole { wall_x, wall_z, local_x, world_y, radius } =>
                MessageView::WallHole {
                wall_x: *wall_x,
                wall_z: *wall_z,
                local_x: *local_x,
                world_y: *world_y,
                radius: *radius,
            },
        }
    }
}

/// A message and the players it goes to.
#[derive(Debug)]
pub struct Delivery {
    pub recipients: Vec<String>,
    pub message: ServerMessage,
}

pub struct DeliveryView {
    pub recipients: Seq<Seq<char>>,
    pub message: MessageView,
}

impl View for Delivery {
    type V = DeliveryView;

    open spec fn view(&self) -> DeliveryView {
        DeliveryView { recipients: crate::roster::ids_view(self.recipients@), message: self.message@ }
    }
}

pub open spec fn deliveries_view(ds: Seq<Delivery>) -> Seq<DeliveryView> {
    ds.map_values(|d: Delivery| d@)
}

} // verus!
