use rsgo::lobby::{GameMode, GameState, TeamColor};
use rsgo::lobby_manager::LobbyManager;
use rsgo::message_broadcaster::MessageBroadcaster;
use rsgo::messages::ServerMessage;
use rsgo::player::Player;

fn player(id: &str) -> Player {
    Player::new(id.to_string(), format!("name-{id}"), (0, 0, 0))
}

/// A team game with orange o1 and red r1, in its first build phase.
fn started_game(m: &mut LobbyManager) -> String {
    let sel = m.get_or_create_team_selection_lobby();
    m.join_lobby(&sel, player("o1"));
    m.join_lobby(&sel, player("r1"));
    assert!(m.join_team(&sel, "o1", TeamColor::Orange));
    assert!(m.join_team(&sel, "r1", TeamColor::Red));
    assert!(m.start_team_game(&sel));
    sel
}

#[test]
fn a_new_manager_holds_the_deathmatch_lobby() {
    let m = LobbyManager::new();
    let dm = m.get_deathmatch_lobby_id();
    assert_eq!(dm.len(), 36);
    assert_eq!(m.lobbies.len(), 1);
    assert_eq!(m.lobbies[0].game_mode, GameMode::Deathmatch);
    assert!(m.team_selection_lobby_id.is_none());
    assert!(m.get_lobby_players(&dm).is_empty());
}

#[test]
fn the_selection_lobby_is_reused_until_full() {
    let mut m = LobbyManager::new();
    let first = m.get_or_create_team_selection_lobby();
    assert_eq!(m.get_or_create_team_selection_lobby(), first);
    for i in 0..10 {
        assert!(m.join_lobby(&first, player(&format!("p{i}"))));
    }
    let second = m.get_or_create_team_selection_lobby();
    assert_ne!(second, first);
    assert_eq!(m.lobbies.len(), 3);
}

#[test]
fn a_started_selection_lobby_is_not_reused() {
    let mut m = LobbyManager::new();
    let sel = m.get_or_create_team_selection_lobby();
    let game = m.create_team_game_from_selection(&sel).unwrap();
    assert_ne!(game, sel);
    assert!(m.lobbies.iter().any(|l| l.id == sel && l.game_started));
    assert_ne!(m.get_or_create_team_selection_lobby(), sel);
}

#[test]
fn the_selection_lobby_opens_under_the_given_id() {
    let mut m = LobbyManager::new();
    let id = m.open_team_selection_lobby("chosen".to_string());
    assert_eq!(id, "chosen");
    assert_eq!(m.team_selection_lobby_id.as_deref(), Some("chosen"));
    let game = m.create_team_game_with_id("chosen", "game".to_string());
    assert_eq!(game.as_deref(), Some("game"));
}

#[test]
fn joining_an_unknown_lobby_fails() {
    let mut m = LobbyManager::new();
    assert!(!m.join_lobby("nowhere", player("a")));
    assert!(!m.join_team("nowhere", "a", TeamColor::Red));
    assert!(m.get_player("nowhere", "a").is_none());
    assert!(m.get_team_data("nowhere").is_none());
    assert_eq!(m.get_team_scores("nowhere"), (0, 0));
    assert_eq!(m.get_round_number("nowhere"), 0);
    assert!(m.get_attacking_team("nowhere").is_none());
    assert!(!m.can_respawn("nowhere"));
    assert!(m.get_lobby_scoreboard("nowhere").is_empty());
}

#[test]
fn an_emptied_team_lobby_is_closed() {
    let mut m = LobbyManager::new();
    let sel = m.get_or_create_team_selection_lobby();
    m.join_lobby(&sel, player("a"));
    assert_eq!(m.lobbies.len(), 2);
    m.leave_lobby(&sel, "a");
    assert_eq!(m.lobbies.len(), 1);
    let dm = m.get_deathmatch_lobby_id();
    m.join_lobby(&dm, player("b"));
    m.leave_lobby(&dm, "b");
    assert_eq!(m.lobbies.len(), 1);
}

#[test]
fn cleanup_keeps_the_deathmatch_and_populated_lobbies() {
    let mut m = LobbyManager::new();
    m.open_team_selection_lobby("empty".to_string());
    m.open_team_selection_lobby("full".to_string());
    m.join_lobby("full", player("a"));
    m.cleanup_empty_team_lobbies();
    let ids: Vec<&str> = m.lobbies.iter().map(|l| l.id.as_str()).collect();
    assert_eq!(ids.len(), 2);
    assert!(ids.contains(&"full"));
    assert!(!ids.contains(&"empty"));
}

#[test]
fn starting_a_game_sets_up_round_one() {
    let mut m = LobbyManager::new();
    let sel = started_game(&mut m);
    assert_eq!(m.get_round_number(&sel), 1);
    assert_eq!(m.get_attacking_team(&sel), Some(TeamColor::Red));
    assert_eq!(m.get_bomb_carrier(&sel).as_deref(), Some("r1"));
    assert!(m.can_respawn(&sel));
}

#[test]
fn combat_goes_through_the_manager() {
    let mut m = LobbyManager::new();
    let sel = started_game(&mut m);
    assert_eq!(m.damage_player(&sel, "o1", 50), Some((false, 100, 50)));
    assert_eq!(m.damage_player(&sel, "o1", 200), Some((true, 0, 0)));
    assert!(m.add_kill_to_player(&sel, "r1"));
    assert_eq!(m.check_team_elimination(&sel), Some(TeamColor::Red));
    m.end_round(&sel, TeamColor::Red, "Team Eliminated");
    assert_eq!(m.get_team_scores(&sel), (0, 1));
    assert!(!m.is_match_over(&sel));
    let r = m.respawn_player(&sel, "o1").unwrap();
    assert!(r.alive);
    let rows = m.get_lobby_scoreboard(&sel);
    assert_eq!(rows[0].id, "r1");
    assert_eq!(rows[0].kills, 1);
}

#[test]
fn the_bomb_goes_through_the_manager() {
    let mut m = LobbyManager::new();
    let sel = started_game(&mut m);
    let b = MessageBroadcaster::new();
    let out = m.check_all_build_phase_timeouts(&b);
    assert!(out.is_empty());
    assert!(m.plant_bomb(&sel, "r1", None, None).is_none());
    assert!(m.drop_bomb(&sel, "r1").is_some());
    assert_eq!(m.pickup_bomb(&sel, "r1", true).as_deref(), Some("name-r1"));
    assert!(m.defuse_bomb(&sel, "o1", true).is_none());
}

#[test]
fn money_updates_reach_the_player() {
    let mut m = LobbyManager::new();
    let sel = started_game(&mut m);
    m.update_player_money(&sel, "o1", 123);
    assert_eq!(m.get_player(&sel, "o1").unwrap().money, 123);
}

#[test]
fn moves_reach_the_player() {
    let mut m = LobbyManager::new();
    let dm = m.get_deathmatch_lobby_id();
    m.join_lobby(&dm, player("a"));
    m.update_player_position(&dm, "a", 2.0f32.to_bits(), 0, 0, 0, 0);
    assert_eq!(f32::from_bits(m.get_player(&dm, "a").unwrap().x), 2.0);
    let updates = m.update_shields(&dm);
    assert!(updates.is_empty());
}

#[test]
fn team_data_lists_both_teams() {
    let mut m = LobbyManager::new();
    let sel = started_game(&mut m);
    let (orange, red) = m.get_team_data(&sel).unwrap();
    assert_eq!(orange, vec![("o1".to_string(), "name-o1".to_string())]);
    assert_eq!(red, vec![("r1".to_string(), "name-r1".to_string())]);
}

#[test]
fn the_match_winner_is_announced_once() {
    let mut m = LobbyManager::new();
    let sel = started_game(&mut m);
    for l in m.lobbies.iter_mut() {
        if l.id == sel {
            l.orange_score = 6;
        }
    }
    m.end_round(&sel, TeamColor::Orange, "Bomb Defused");
    assert!(m.is_match_over(&sel));
    assert_eq!(m.take_match_end_winner(&sel), Some("orange"));
    assert_eq!(m.take_match_end_winner(&sel), None);
}

#[test]
fn a_new_round_starts_on_request() {
    let mut m = LobbyManager::new();
    let sel = started_game(&mut m);
    m.end_round(&sel, TeamColor::Orange, "Time Up");
    assert!(!m.start_new_round(&sel));
    assert_eq!(m.get_round_number(&sel), 2);
    let b = MessageBroadcaster::new();
    let out = m.check_all_round_restarts(&b);
    assert!(out.is_empty());
    let out = m.check_all_bomb_explosions(&b);
    assert!(out.is_empty());
}

#[test]
fn counters_are_in_range_on_a_fresh_manager() {
    let m = LobbyManager::new();
    assert!(m.counters_in_range());
}

#[test]
fn a_build_phase_end_is_announced_to_the_lobby() {
    let mut m = LobbyManager::new();
    let sel = started_game(&mut m);
    let mut b = MessageBroadcaster::new();
    b.add_connection("o1".to_string());
    b.add_player_to_lobby(&sel, "o1");
    let Some(long_ago) = std::time::Instant::now().checked_sub(std::time::Duration::from_secs(31)) else {
        return;
    };
    for l in m.lobbies.iter_mut() {
        if l.id == sel {
            l.build_phase_start = Some(long_ago);
        }
    }
    let out = m.check_all_build_phase_timeouts(&b);
    assert_eq!(out.len(), 1);
    assert_eq!(out[0].recipients, vec!["o1".to_string()]);
    assert!(matches!(out[0].message, ServerMessage::BuildPhaseEnd { round_time: 100 }));
    assert!(m.lobbies.iter().any(|l| l.id == sel && l.game_state == GameState::Playing));
}

#[test]
fn a_full_counter_is_reported_for_its_lobby_only() {
    let mut m = LobbyManager::new();
    let sel = started_game(&mut m);
    let dm = m.get_deathmatch_lobby_id();
    assert!(m.scores_in_range());
    for l in m.lobbies.iter_mut() {
        if l.id == sel {
            l.red_score = i32::MAX;
        }
    }
    assert!(!m.scores_in_range());
    assert!(!m.counters_in_range());
    assert!(!m.lobby_counters_in_range(&sel));
    assert!(m.lobby_counters_in_range(&dm));
    assert!(m.lobby_counters_in_range("nowhere"));
}

#[test]
fn a_player_with_a_full_kill_count_is_reported() {
    let mut m = LobbyManager::new();
    let dm = m.get_deathmatch_lobby_id();
    let mut p = player("a");
    p.kills = i32::MAX;
    m.join_lobby(&dm, p);
    assert!(!m.lobby_counters_in_range(&dm));
    assert!(m.scores_in_range());
}

#[test]
fn every_lobby_due_ends_its_build_phase() {
    let mut m = LobbyManager::new();
    let sel = started_game(&mut m);
    let b = MessageBroadcaster::new();
    let early: Vec<Option<u64>> = m.lobbies.iter().map(|l| l.build_phase_start.map(|_| 29_999)).collect();
    assert!(m.check_all_build_phase_timeouts_after(&b, &early).is_empty());
    assert!(m.lobbies.iter().any(|l| l.id == sel && l.game_state == GameState::BuildPhase));
    let due: Vec<Option<u64>> = m.lobbies.iter().map(|l| l.build_phase_start.map(|_| 30_000)).collect();
    let out = m.check_all_build_phase_timeouts_after(&b, &due);
    assert_eq!(out.len(), 1);
    assert!(matches!(out[0].message, ServerMessage::BuildPhaseEnd { round_time: 100 }));
    assert!(m.lobbies.iter().any(|l| l.id == sel && l.game_state == GameState::Playing));
}

#[test]
fn every_bomb_due_goes_off() {
    let mut m = LobbyManager::new();
    let sel = started_game(&mut m);
    for l in m.lobbies.iter_mut() {
        if l.id == sel {
            l.game_state = GameState::Playing;
        }
    }
    assert!(m.plant_bomb(&sel, "r1", Some(0), Some(0)).is_some());
    let b = MessageBroadcaster::new();
    let early: Vec<Option<u64>> = m.lobbies.iter().map(|l| l.bomb_plant_time.map(|_| 39_999)).collect();
    assert!(m.check_all_bomb_explosions_after(&b, &early).is_empty());
    let due: Vec<Option<u64>> = m.lobbies.iter().map(|l| l.bomb_plant_time.map(|_| 40_000)).collect();
    let out = m.check_all_bomb_explosions_after(&b, &due);
    assert!(matches!(out[0].message, ServerMessage::BombExploded));
    assert!(matches!(
        &out[1].message,
        ServerMessage::RoundEnd { winner, reason, orange_score: 0, red_score: 1 } if winner == "red" && reason == "Bomb Exploded"
    ));
    assert!(m.lobbies.iter().any(|l| l.id == sel && l.game_state == GameState::RoundEnd && !l.bomb_planted));
    assert_eq!(m.get_team_scores(&sel), (0, 1));
}

#[test]
fn every_round_due_restarts() {
    let mut m = LobbyManager::new();
    let sel = started_game(&mut m);
    m.end_round(&sel, TeamColor::Orange, "Time Up");
    let b = MessageBroadcaster::new();
    let seeds: Vec<usize> = vec![0; m.lobbies.len()];
    let early: Vec<Option<u64>> = m.lobbies.iter().map(|l| l.round_end_time.map(|_| 4_999)).collect();
    assert!(m.check_all_round_restarts_after(&b, &early, &seeds).is_empty());
    assert_eq!(m.get_round_number(&sel), 1);
    let due: Vec<Option<u64>> = m.lobbies.iter().map(|l| l.round_end_time.map(|_| 5_000)).collect();
    let out = m.check_all_round_restarts_after(&b, &due, &seeds);
    assert!(out.iter().any(|d| matches!(
        d.message,
        ServerMessage::RoundStart { round_number: 2, buy_time: 30, orange_score: 1, red_score: 0, .. }
    )));
    assert!(!out.iter().any(|d| matches!(d.message, ServerMessage::MapReset)));
    assert_eq!(m.get_round_number(&sel), 2);
    assert!(m.lobbies.iter().any(|l| l.id == sel && l.game_state == GameState::BuildPhase));
}

#[test]
fn round_numbers_are_checked_for_room() {
    let mut m = LobbyManager::new();
    let sel = started_game(&mut m);
    assert!(m.round_numbers_in_range());
    for l in m.lobbies.iter_mut() {
        if l.id == sel {
            l.round_number = i32::MAX;
        }
    }
    assert!(!m.round_numbers_in_range());
}

#[test]
fn a_lobby_past_its_round_end_has_begun_the_next() {
    let mut m = LobbyManager::new();
    let sel = started_game(&mut m);
    assert!(m.next_round_begun(&sel));
    m.end_round(&sel, TeamColor::Orange, "Time Up");
    assert!(!m.next_round_begun(&sel));
    assert!(!m.next_round_begun("no-such-lobby"));
    assert!(!m.start_new_round(&sel));
    assert!(m.next_round_begun(&sel));
}
