use rsgo::lobby::{GameState, TeamColor};
use rsgo::message_handler::{structure_cost, Effect, GeometryFacts};
use rsgo::messages::{ClientMessage, Delivery, ServerMessage};
use rsgo::server::GameServer;

fn no_facts() -> GeometryFacts {
    GeometryFacts {
        shot_blocked: false,
        bomb_within_pickup_reach: false,
        bomb_within_defuse_reach: false,
        wall_hole_added: false,
    }
}

fn near() -> GeometryFacts {
    GeometryFacts {
        shot_blocked: false,
        bomb_within_pickup_reach: true,
        bomb_within_defuse_reach: true,
        wall_hole_added: true,
    }
}

fn deliveries(es: &[Effect]) -> Vec<&Delivery> {
    es.iter()
        .filter_map(|e| match e {
            Effect::Deliver(d) => Some(d),
            _ => None,
        })
        .collect()
}

fn to(ids: &[&str]) -> Vec<String> {
    ids.iter().map(|s| s.to_string()).collect()
}

/// A server where `a` (Alice) and `b` (Bob) joined the deathmatch.
fn deathmatch() -> GameServer {
    let mut s = GameServer::new();
    s.connect_player("a".to_string());
    s.connect_player("b".to_string());
    s.receive("a", ClientMessage::Join { name: "Alice".to_string() }, no_facts());
    s.receive("b", ClientMessage::Join { name: "Bob".to_string() }, no_facts());
    s
}

fn hit(s: &mut GameServer, shooter: &str, target: &str) -> Vec<Effect> {
    s.receive(
        shooter,
        ClientMessage::Hit { target_player_id: target.to_string(), killed: false },
        no_facts(),
    )
}

/// A server with a team game of `o` (orange) and `r` (red) in its build phase.
fn team_game() -> (GameServer, String) {
    let mut s = GameServer::new();
    for id in ["o", "r"] {
        s.connect_player(id.to_string());
        s.receive(id, ClientMessage::CreateTeamLobby { name: format!("name-{id}") }, no_facts());
    }
    s.receive("o", ClientMessage::JoinTeam { team: "orange".to_string() }, no_facts());
    s.receive("r", ClientMessage::JoinTeam { team: "red".to_string() }, no_facts());
    let lobby = s.message_handler.lobby_for("o").unwrap();
    let es = s.receive("o", ClientMessage::StartTeamGame, no_facts());
    assert!(!es.is_empty());
    (s, lobby)
}

#[test]
fn a_connection_gets_a_fresh_id_and_a_greeting() {
    let mut s = GameServer::new();
    let (id, greeting) = s.handle_connection();
    assert_eq!(id.len(), 36);
    match greeting {
        ServerMessage::Welcome { player_id, lobby_id, game_mode } => {
            assert_eq!(player_id, id);
            assert_eq!(lobby_id, "connecting");
            assert_eq!(game_mode, "connecting");
        },
        other => panic!("unexpected {other:?}"),
    }
    let (other, _) = s.handle_connection();
    assert_ne!(other, id);
}

#[test]
fn joining_welcomes_and_announces() {
    let mut s = GameServer::new();
    s.connect_player("a".to_string());
    s.connect_player("b".to_string());
    s.receive("a", ClientMessage::Join { name: "Alice".to_string() }, no_facts());
    let es = s.receive("b", ClientMessage::Join { name: "Bob".to_string() }, no_facts());
    let ds = deliveries(&es);
    assert_eq!(ds.len(), 4);
    assert_eq!(ds[0].recipients, to(&["b"]));
    assert!(matches!(&ds[0].message, ServerMessage::PlayerJoined { player } if player.id == "a"));
    match &ds[1].message {
        ServerMessage::Welcome { player_id, game_mode, .. } => {
            assert_eq!(player_id, "b");
            assert_eq!(game_mode, "deathmatch");
        },
        other => panic!("unexpected {other:?}"),
    }
    assert_eq!(ds[2].recipients, to(&["a"]));
    assert!(matches!(&ds[2].message, ServerMessage::PlayerJoined { player } if player.name == "Bob" && f32::from_bits(player.y) == 5.0));
    assert_eq!(ds[3].recipients, to(&["a", "b"]));
    assert!(matches!(&ds[3].message, ServerMessage::ScoreboardUpdate { players } if players.len() == 2));
    assert_eq!(s.message_handler.lobby_for("b"), Some(s.message_handler.lobby_manager.get_deathmatch_lobby_id()));
}

#[test]
fn moves_and_shots_go_to_the_others() {
    let mut s = deathmatch();
    let es = s.receive(
        "a",
        ClientMessage::Move { x: 1.0f32.to_bits(), y: 2.0f32.to_bits(), z: 3.0f32.to_bits(), rotation_x: 0, rotation_y: 0 },
        no_facts(),
    );
    let ds = deliveries(&es);
    assert_eq!(ds.len(), 1);
    assert_eq!(ds[0].recipients, to(&["b"]));
    let dm = s.message_handler.lobby_manager.get_deathmatch_lobby_id();
    let a = s.message_handler.lobby_manager.get_player(&dm, "a").unwrap();
    assert_eq!(f32::from_bits(a.z), 3.0);
    let es = s.receive(
        "b",
        ClientMessage::Shoot { start_x: 0, start_y: 0, start_z: 0, target_x: 0, target_y: 0, target_z: 0 },
        no_facts(),
    );
    let ds = deliveries(&es);
    assert_eq!(ds[0].recipients, to(&["a"]));
    assert!(matches!(&ds[0].message, ServerMessage::PlayerShot { shooter_id, .. } if shooter_id == "b"));
}

#[test]
fn messages_from_a_player_in_no_lobby_do_nothing() {
    let mut s = GameServer::new();
    s.connect_player("x".to_string());
    assert!(s.receive("x", ClientMessage::Respawn, no_facts()).is_empty());
    assert!(s.receive("x", ClientMessage::DropBomb, no_facts()).is_empty());
    assert!(s.receive("x", ClientMessage::StartTeamGame, no_facts()).is_empty());
    assert!(hit(&mut s, "x", "y").is_empty());
}

#[test]
fn a_blocked_shot_does_no_harm() {
    let mut s = deathmatch();
    let facts = GeometryFacts { shot_blocked: true, ..no_facts() };
    let es = s.receive("a", ClientMessage::Hit { target_player_id: "b".to_string(), killed: true }, facts);
    assert!(es.is_empty());
    let dm = s.message_handler.lobby_manager.get_deathmatch_lobby_id();
    assert_eq!(s.message_handler.lobby_manager.get_player(&dm, "b").unwrap().shield, 100);
}

#[test]
fn a_hit_reports_health_and_shield() {
    let mut s = deathmatch();
    let es = hit(&mut s, "a", "b");
    let ds = deliveries(&es);
    assert_eq!(ds.len(), 1);
    assert_eq!(ds[0].recipients, to(&["a", "b"]));
    assert!(matches!(
        &ds[0].message,
        ServerMessage::PlayerHit { player_id, damage: 50, health: 100, shield: 50 } if player_id == "b"
    ));
}

#[test]
fn a_kill_is_credited_and_announced() {
    let mut s = deathmatch();
    for _ in 0..3 {
        hit(&mut s, "a", "b");
    }
    let es = hit(&mut s, "a", "b");
    let ds = deliveries(&es);
    assert_eq!(ds.len(), 3);
    assert_eq!(ds[0].recipients, to(&["a"]));
    assert!(matches!(&ds[0].message, ServerMessage::MoneyUpdate { player_id, money: 800 } if player_id == "a"));
    match &ds[1].message {
        ServerMessage::PlayerDied { player_id, killer_id, victim_name, killer_name } => {
            assert_eq!((player_id.as_str(), killer_id.as_str()), ("b", "a"));
            assert_eq!((victim_name.as_str(), killer_name.as_str()), ("Bob", "Alice"));
        },
        other => panic!("unexpected {other:?}"),
    }
    match &ds[2].message {
        ServerMessage::ScoreboardUpdate { players } => {
            assert_eq!(players[0].id, "a");
            assert_eq!(players[0].kills, 1);
            assert!(!players[1].alive);
        },
        other => panic!("unexpected {other:?}"),
    }
    // The dead cannot be hit again.
    assert!(hit(&mut s, "a", "b").is_empty());
    let es = s.receive("b", ClientMessage::Respawn, no_facts());
    let ds = deliveries(&es);
    assert!(matches!(&ds[0].message, ServerMessage::PlayerRespawned { player } if player.alive && player.health == 100));
}

#[test]
fn a_killer_outside_the_lobby_is_unknown() {
    let mut s = deathmatch();
    let dm = s.message_handler.lobby_manager.get_deathmatch_lobby_id();
    s.message_handler.lobby_manager.leave_lobby(&dm, "a");
    for _ in 0..3 {
        hit(&mut s, "a", "b");
    }
    let es = hit(&mut s, "a", "b");
    let ds = deliveries(&es);
    assert_eq!(ds.len(), 2);
    assert!(matches!(&ds[0].message, ServerMessage::PlayerDied { killer_name, .. } if killer_name == "Unknown"));
}

#[test]
fn structures_are_paid_for() {
    assert_eq!(structure_cost("large"), 800);
    assert_eq!(structure_cost("destructible"), 600);
    assert_eq!(structure_cost("small"), 400);
    assert_eq!(structure_cost("barrier"), 400);
    assert_eq!(structure_cost("ramp"), 0);
    let mut s = deathmatch();
    let place = |t: &str| ClientMessage::PlaceStructure {
        structure_type: t.to_string(),
        x: 4.0f32.to_bits(),
        y: 90.0f32.to_bits(),
        z: 6.0f32.to_bits(),
    };
    let es = s.receive("a", place("large"), no_facts());
    assert_eq!(es.len(), 3);
    assert!(matches!(&es[0], Effect::Deliver(d) if matches!(&d.message, ServerMessage::MoneyUpdate { money: 0, .. })));
    match &es[1] {
        Effect::AddStructure { structure_type, x, z, rotation, .. } => {
            assert_eq!(structure_type, "large");
            assert_eq!((f32::from_bits(*x), f32::from_bits(*z), f32::from_bits(*rotation)), (4.0, 6.0, 90.0));
        },
        other => panic!("unexpected {other:?}"),
    }
    assert!(matches!(&es[2], Effect::Deliver(d) if d.recipients == to(&["b"])));
    // Broke: a priced structure is refused, a free one is placed.
    assert!(s.receive("a", place("small"), no_facts()).is_empty());
    let es = s.receive("a", place("ramp"), no_facts());
    assert_eq!(es.len(), 2);
}

#[test]
fn wall_holes_are_announced_when_added() {
    let mut s = deathmatch();
    let msg = || ClientMessage::WallHit { wall_x: 0, wall_z: 0, local_x: 0, world_y: 0, radius: 1 };
    assert!(s.receive("a", msg(), no_facts()).is_empty());
    let es = s.receive("a", msg(), near());
    let ds = deliveries(&es);
    assert_eq!(ds[0].recipients, to(&["a", "b"]));
    assert!(matches!(&ds[0].message, ServerMessage::WallHole { radius: 1, .. }));
}

#[test]
fn a_team_lobby_is_created_and_joined() {
    let mut s = deathmatch();
    let es = s.receive("a", ClientMessage::CreateTeamLobby { name: "Alice".to_string() }, no_facts());
    let ds = deliveries(&es);
    assert_eq!(ds.len(), 4);
    assert!(matches!(&ds[0].message, ServerMessage::PlayerLeft { player_id } if player_id == "a"));
    assert_eq!(ds[0].recipients, to(&["b"]));
    assert!(matches!(&ds[1].message, ServerMessage::ScoreboardUpdate { players } if players.len() == 1));
    let lobby = s.message_handler.lobby_for("a").unwrap();
    assert!(matches!(&ds[2].message, ServerMessage::TeamLobbyCreated { lobby_id } if *lobby_id == lobby));
    assert!(matches!(&ds[3].message, ServerMessage::TeamUpdate { can_start: false, .. }));
    let es = s.receive("a", ClientMessage::JoinTeam { team: "purple".to_string() }, no_facts());
    assert!(es.is_empty());
    let es = s.receive("a", ClientMessage::JoinTeam { team: "orange".to_string() }, no_facts());
    match &deliveries(&es)[0].message {
        ServerMessage::TeamUpdate { orange_team, red_team, can_start } => {
            assert_eq!(orange_team.len(), 1);
            assert_eq!(orange_team[0].name, "Alice");
            assert!(red_team.is_empty());
            assert!(!can_start);
        },
        other => panic!("unexpected {other:?}"),
    }
}

#[test]
fn a_team_game_starts_for_everyone() {
    let mut s = GameServer::new();
    for id in ["o", "r"] {
        s.connect_player(id.to_string());
        s.receive(id, ClientMessage::CreateTeamLobby { name: format!("name-{id}") }, no_facts());
    }
    s.receive("o", ClientMessage::JoinTeam { team: "orange".to_string() }, no_facts());
    s.receive("r", ClientMessage::JoinTeam { team: "red".to_string() }, no_facts());
    let es = s.receive("o", ClientMessage::StartTeamGame, no_facts());
    let ds = deliveries(&es);
    // Two peer notices, the start, round one, two respawns, the bomb, the scoreboard.
    assert_eq!(ds.len(), 8);
    assert_eq!(ds[0].recipients, to(&["o"]));
    assert!(matches!(&ds[0].message, ServerMessage::PlayerJoined { player } if player.id == "r"));
    assert!(matches!(&ds[2].message, ServerMessage::GameStarted { game_mode } if game_mode == "team"));
    assert!(matches!(
        &ds[3].message,
        ServerMessage::RoundStart { round_number: 1, buy_time: 30, orange_score: 0, red_score: 0, attacking_team } if attacking_team == "red"
    ));
    assert_eq!(ds[6].recipients, to(&["r"]));
    assert!(matches!(&ds[6].message, ServerMessage::GiveBomb { player_id } if player_id == "r"));
    assert!(matches!(&ds[7].message, ServerMessage::ScoreboardUpdate { .. }));
}

#[test]
fn eliminating_a_team_ends_the_round_and_a_pause_follows() {
    let (mut s, lobby) = team_game();
    for _ in 0..3 {
        hit(&mut s, "o", "r");
    }
    let es = hit(&mut s, "o", "r");
    let ds = deliveries(&es);
    // Money, death, the bomb, the scoreboard, the round's end, money for both.
    assert_eq!(ds.len(), 7);
    assert!(matches!(&ds[2].message, ServerMessage::BombDropped { .. }));
    assert!(matches!(
        &ds[4].message,
        ServerMessage::RoundEnd { winner, reason, orange_score: 1, red_score: 0 } if winner == "orange" && reason == "Team Eliminated"
    ));
    assert!(matches!(es.last(), Some(Effect::RestartRoundLater { lobby_id }) if *lobby_id == lobby));
    let mut out = Vec::new();
    s.message_handler.resume_after_round_end(&lobby, &mut out);
    let ds = deliveries(&out);
    assert!(matches!(&ds[0].message, ServerMessage::RoundStart { round_number: 2, orange_score: 1, .. }));
    assert!(matches!(&ds.last().unwrap().message, ServerMessage::GiveBomb { player_id } if player_id == "r"));
    assert!(!out.iter().any(|e| matches!(e, Effect::ClearStructures { .. })));
}

#[test]
fn a_defused_bomb_ends_the_round() {
    let (mut s, lobby) = team_game();
    for l in s.message_handler.lobby_manager.lobbies.iter_mut() {
        if l.id == lobby {
            l.game_state = GameState::Playing;
        }
    }
    let es = s.receive("r", ClientMessage::PlantBomb { position_x: Some(0), position_z: Some(0) }, no_facts());
    let ds = deliveries(&es);
    assert!(matches!(&ds[0].message, ServerMessage::BombPlanted { timer: 40, .. }));
    assert!(s.receive("o", ClientMessage::DefuseBomb, no_facts()).is_empty());
    let es = s.receive("o", ClientMessage::DefuseBomb, near());
    let ds = deliveries(&es);
    assert!(matches!(&ds[0].message, ServerMessage::BombDefused { player_id } if player_id == "o"));
    assert!(matches!(
        &ds[1].message,
        ServerMessage::RoundEnd { winner, reason, orange_score: 1, .. } if winner == "orange" && reason == "Bomb Defused"
    ));
    assert!(matches!(es.last(), Some(Effect::RestartRoundLater { .. })));
}

#[test]
fn the_bomb_can_be_dropped_and_picked_up() {
    let (mut s, _) = team_game();
    assert!(s.receive("o", ClientMessage::DropBomb, no_facts()).is_empty());
    let es = s.receive("r", ClientMessage::DropBomb, no_facts());
    assert!(matches!(&deliveries(&es)[0].message, ServerMessage::BombDropped { .. }));
    assert!(s.receive("r", ClientMessage::PickupBomb, no_facts()).is_empty());
    let es = s.receive("r", ClientMessage::PickupBomb, near());
    assert!(matches!(&deliveries(&es)[0].message, ServerMessage::BombPickedUp { player_name, .. } if player_name == "name-r"));
}

#[test]
fn respawning_waits_for_the_round_to_end() {
    let (mut s, lobby) = team_game();
    for l in s.message_handler.lobby_manager.lobbies.iter_mut() {
        if l.id == lobby {
            l.game_state = GameState::Playing;
        }
    }
    assert!(s.receive("o", ClientMessage::Respawn, no_facts()).is_empty());
}

#[test]
fn a_won_match_is_announced_after_the_pause() {
    let (mut s, lobby) = team_game();
    for l in s.message_handler.lobby_manager.lobbies.iter_mut() {
        if l.id == lobby {
            l.orange_score = 6;
        }
    }
    for _ in 0..3 {
        hit(&mut s, "o", "r");
    }
    let es = hit(&mut s, "o", "r");
    assert!(matches!(
        &deliveries(&es).last().unwrap().message,
        ServerMessage::MatchEnd { winner } if winner == "orange"
    ));
    let mut out = Vec::new();
    s.message_handler.resume_after_round_end(&lobby, &mut out);
    assert!(out.is_empty());
    assert_eq!(s.message_handler.lobby_manager.get_attacking_team(&lobby), Some(TeamColor::Red));
}

#[test]
fn a_disconnect_leaves_the_lobby() {
    let mut s = deathmatch();
    let es = s.disconnect_player("b");
    let ds = deliveries(&es);
    assert_eq!(ds.len(), 3);
    assert_eq!(ds[0].recipients, to(&["a"]));
    assert!(matches!(&ds[0].message, ServerMessage::PlayerLeft { player_id } if player_id == "b"));
    assert!(matches!(&ds[1].message, ServerMessage::TeamUpdate { .. }));
    assert!(matches!(&ds[2].message, ServerMessage::ScoreboardUpdate { players } if players.len() == 1));
    assert!(s.message_handler.lobby_for("b").is_none());
    assert!(s.disconnect_player("b").is_empty());
}

#[test]
fn a_quiet_tick_changes_nothing() {
    let (mut s, _) = team_game();
    assert!(s.message_handler.lobby_manager.counters_in_range());
    let es = s.tick();
    assert!(es.is_empty());
}

#[test]
fn an_exploded_round_is_followed_by_the_next_on_a_later_tick() {
    let (mut s, lobby) = team_game();
    for l in s.message_handler.lobby_manager.lobbies.iter_mut() {
        if l.id == lobby {
            l.game_state = GameState::Playing;
        }
    }
    s.receive("r", ClientMessage::PlantBomb { position_x: Some(0), position_z: Some(0) }, no_facts());
    let Some(planted_long_ago) = std::time::Instant::now().checked_sub(std::time::Duration::from_secs(41)) else {
        return;
    };
    for l in s.message_handler.lobby_manager.lobbies.iter_mut() {
        if l.id == lobby {
            l.bomb_plant_time = Some(planted_long_ago);
        }
    }
    let es = s.tick();
    let ds = deliveries(&es);
    assert!(matches!(&ds[0].message, ServerMessage::BombExploded));
    assert!(matches!(
        &ds[1].message,
        ServerMessage::RoundEnd { winner, reason, orange_score: 0, red_score: 1 } if winner == "red" && reason == "Bomb Exploded"
    ));
    assert!(!es.iter().any(|e| matches!(e, Effect::Deliver(d) if matches!(d.message, ServerMessage::RoundStart { .. }))));
    assert_eq!(s.message_handler.lobby_manager.get_round_number(&lobby), 1);
    let Some(ended_long_ago) = std::time::Instant::now().checked_sub(std::time::Duration::from_secs(6)) else {
        return;
    };
    for l in s.message_handler.lobby_manager.lobbies.iter_mut() {
        if l.id == lobby {
            l.round_end_time = Some(ended_long_ago);
        }
    }
    let es = s.tick();
    let ds = deliveries(&es);
    assert!(ds.iter().any(|d| d.recipients.len() == 2 && matches!(
        d.message,
        ServerMessage::RoundStart { round_number: 2, orange_score: 0, red_score: 1, .. }
    )));
    assert!(matches!(&ds.last().unwrap().message, ServerMessage::GiveBomb { .. }));
    assert_eq!(s.message_handler.lobby_manager.get_round_number(&lobby), 2);
    assert!(s.message_handler.lobby_manager.lobbies.iter().any(|l| l.id == lobby && l.game_state == GameState::BuildPhase));
    assert!(s.tick().is_empty());
}

#[test]
fn a_round_started_by_the_tick_is_not_started_again_after_the_pause() {
    let (mut s, lobby) = team_game();
    for _ in 0..3 {
        hit(&mut s, "o", "r");
    }
    let es = hit(&mut s, "o", "r");
    assert!(matches!(es.last(), Some(Effect::RestartRoundLater { lobby_id }) if *lobby_id == lobby));
    let Some(ended_long_ago) = std::time::Instant::now().checked_sub(std::time::Duration::from_secs(6)) else {
        return;
    };
    for l in s.message_handler.lobby_manager.lobbies.iter_mut() {
        if l.id == lobby {
            l.round_end_time = Some(ended_long_ago);
        }
    }
    let es = s.tick();
    assert!(deliveries(&es).iter().any(|d| matches!(
        d.message,
        ServerMessage::RoundStart { round_number: 2, orange_score: 1, red_score: 0, .. }
    )));
    let mut out = Vec::new();
    s.message_handler.resume_after_round_end(&lobby, &mut out);
    assert!(out.is_empty());
    assert_eq!(s.message_handler.lobby_manager.get_round_number(&lobby), 2);
}
