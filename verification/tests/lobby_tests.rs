use rsgo::lobby::{
    GameMode, GameState, Lobby, RoundEndReason, TeamColor, LOSS_BONUS, RESET_MONEY, WIN_BONUS,
};
use rsgo::player::Player;

fn at(x: f32, y: f32, z: f32) -> (u32, u32, u32) {
    (x.to_bits(), y.to_bits(), z.to_bits())
}

fn player(id: &str) -> Player {
    Player::new(id.to_string(), format!("name-{id}"), at(0.0, 5.0, 0.0))
}

fn find<'a>(l: &'a Lobby, id: &str) -> &'a Player {
    l.players.iter().find(|p| p.id == id).unwrap()
}

/// A team lobby with orange o1, o2 and red r1, r2, not yet started.
fn team_lobby() -> Lobby {
    let mut l = Lobby::new_team_vs_team("t".to_string());
    for id in ["o1", "o2", "r1", "r2"] {
        assert!(l.add_player(player(id)));
    }
    assert!(l.join_team("o1", TeamColor::Orange));
    assert!(l.join_team("o2", TeamColor::Orange));
    assert!(l.join_team("r1", TeamColor::Red));
    assert!(l.join_team("r2", TeamColor::Red));
    l
}

/// The same lobby with its first round in play; red attacks and r1 carries the bomb.
fn playing_lobby() -> Lobby {
    let mut l = team_lobby();
    assert!(l.start_game_seeded(0));
    assert!(l.check_build_phase_timeout_after(Some(30_000)));
    l
}

#[test]
fn new_lobbies_start_as_their_mode_says() {
    let d = Lobby::new_deathmatch("d".to_string());
    assert_eq!(d.game_mode, GameMode::Deathmatch);
    assert_eq!(d.game_state, GameState::Playing);
    assert_eq!(d.max_players, 20);
    assert!(d.game_started);
    let t = Lobby::new_team_vs_team("t".to_string());
    assert_eq!(t.game_mode, GameMode::TeamVsTeam);
    assert_eq!(t.game_state, GameState::WaitingForPlayers);
    assert_eq!(t.max_players, 10);
    assert!(!t.game_started);
    assert_eq!(t.attacking_team, TeamColor::Red);
    assert_eq!(t.round_number, 0);
}

#[test]
fn a_full_lobby_refuses_players() {
    let mut l = Lobby::new_team_vs_team("t".to_string());
    for i in 0..10 {
        assert!(l.add_player(player(&format!("p{i}"))));
    }
    assert!(!l.add_player(player("late")));
    assert_eq!(l.players.len(), 10);
}

#[test]
fn adding_a_known_player_replaces_it() {
    let mut l = Lobby::new_deathmatch("d".to_string());
    l.add_player(player("a"));
    let mut again = player("a");
    again.name = "renamed".to_string();
    assert!(l.add_player(again));
    assert_eq!(l.players.len(), 1);
    assert_eq!(find(&l, "a").name, "renamed");
}

#[test]
fn joining_a_team_moves_the_player() {
    let mut l = team_lobby();
    assert!(l.join_team("o1", TeamColor::Red));
    assert_eq!(l.orange_team, vec!["o2".to_string()]);
    assert_eq!(l.red_team, vec!["r1".to_string(), "r2".to_string(), "o1".to_string()]);
    assert_eq!(find(&l, "o1").team.as_deref(), Some("red"));
    assert!(!l.join_team("ghost", TeamColor::Red));
}

#[test]
fn a_full_team_refuses_but_the_player_leaves_its_team() {
    let mut l = Lobby::new_team_vs_team("t".to_string());
    for i in 0..6 {
        l.add_player(player(&format!("p{i}")));
    }
    for i in 0..5 {
        assert!(l.join_team(&format!("p{i}"), TeamColor::Orange));
    }
    assert!(l.join_team("p5", TeamColor::Red));
    assert!(!l.join_team("p5", TeamColor::Orange));
    assert_eq!(l.orange_team.len(), 5);
    assert!(l.red_team.is_empty());
}

#[test]
fn removing_a_player_clears_its_team() {
    let mut l = team_lobby();
    l.remove_player("r1");
    assert_eq!(l.players.len(), 3);
    assert_eq!(l.red_team, vec!["r2".to_string()]);
}

#[test]
fn a_team_game_needs_both_teams() {
    let mut l = Lobby::new_team_vs_team("t".to_string());
    l.add_player(player("o1"));
    l.join_team("o1", TeamColor::Orange);
    assert!(!l.can_start_team_game());
    assert!(!l.start_game_seeded(0));
    assert_eq!(l.game_state, GameState::WaitingForPlayers);
    assert!(team_lobby().can_start_team_game());
}

#[test]
fn starting_a_team_game_begins_round_one() {
    let mut l = team_lobby();
    assert!(l.start_game_seeded(1));
    assert!(l.game_started);
    assert_eq!(l.round_number, 1);
    assert_eq!(l.game_state, GameState::BuildPhase);
    assert!(l.build_phase_start.is_some());
    assert_eq!(l.attacking_team, TeamColor::Red);
    assert_eq!(l.bomb_carrier_id.as_deref(), Some("r2"));
    assert!(find(&l, "r2").has_bomb);
    assert!(!find(&l, "r1").has_bomb);
    for p in &l.players {
        assert_eq!(p.money, RESET_MONEY);
        assert!(p.alive);
    }
    // Attackers spawn on their side, numbered by their place in the team.
    assert_eq!(f32::from_bits(find(&l, "r1").z), -300.0);
    assert_eq!(f32::from_bits(find(&l, "r2").x), -15.0);
    assert_eq!(f32::from_bits(find(&l, "o1").z), 300.0);
}

#[test]
fn spawn_positions_follow_side_and_team_order() {
    let l = team_lobby();
    let r2 = l.get_spawn_position("r2");
    assert_eq!((f32::from_bits(r2.0), f32::from_bits(r2.2)), (-15.0, -300.0));
    let o1 = l.get_spawn_position("o1");
    assert_eq!((f32::from_bits(o1.0), f32::from_bits(o1.2)), (0.0, 300.0));
    let d = Lobby::new_deathmatch("d".to_string());
    let c = d.get_spawn_position("anyone");
    assert_eq!(f32::from_bits(c.1), 10.0);
}

#[test]
fn the_build_phase_ends_after_thirty_seconds() {
    let mut l = team_lobby();
    l.start_game_seeded(0);
    assert!(!l.check_build_phase_timeout_after(Some(29_999)));
    assert_eq!(l.game_state, GameState::BuildPhase);
    assert!(l.check_build_phase_timeout_after(Some(30_000)));
    assert_eq!(l.game_state, GameState::Playing);
    assert!(l.round_start_time.is_some());
}

#[test]
fn only_the_carrier_plants_and_only_in_play() {
    let mut l = team_lobby();
    l.start_game_seeded(0);
    assert!(l.plant_bomb("r1", None, None).is_none());
    l.end_build_phase();
    assert!(l.plant_bomb("r2", None, None).is_none());
    let spot = l.plant_bomb("r1", Some(3.0f32.to_bits()), Some(4.0f32.to_bits())).unwrap();
    assert_eq!((f32::from_bits(spot.0), f32::from_bits(spot.1)), (3.0, 4.0));
    assert!(l.bomb_planted);
    assert!(l.bomb_carrier_id.is_none());
    assert!(!find(&l, "r1").has_bomb);
    let p = l.bomb_position.unwrap();
    assert_eq!(f32::from_bits(p.1), 1.0);
    assert!(l.plant_bomb("r1", None, None).is_none());
}

#[test]
fn a_plant_without_a_spot_uses_the_planter() {
    let mut l = playing_lobby();
    let r1 = find(&l, "r1");
    let (x, z) = (r1.x, r1.z);
    assert_eq!(l.plant_bomb("r1", Some(1), None), Some((x, z)));
}

#[test]
fn a_defused_bomb_wins_the_round_for_the_defenders() {
    let mut l = playing_lobby();
    l.plant_bomb("r1", None, None).unwrap();
    assert!(l.defuse_bomb("r1", true).is_none());
    assert!(l.defuse_bomb("o1", false).is_none());
    assert_eq!(l.defuse_bomb("o1", true), Some(TeamColor::Orange));
    assert!(!l.bomb_planted);
    assert!(l.bomb_position.is_none());
    assert_eq!(l.orange_score, 1);
    assert_eq!(l.red_score, 0);
    assert_eq!(l.game_state, GameState::RoundEnd);
    assert_eq!(find(&l, "o1").money, RESET_MONEY + WIN_BONUS);
    assert_eq!(find(&l, "r1").money, RESET_MONEY + LOSS_BONUS);
}

#[test]
fn a_bomb_goes_off_after_forty_seconds() {
    let mut l = playing_lobby();
    l.plant_bomb("r1", None, None).unwrap();
    assert!(!l.check_bomb_explosion_after(Some(39_999)));
    assert!(l.bomb_planted);
    assert!(l.check_bomb_explosion_after(Some(40_000)));
    assert!(!l.bomb_planted);
    assert_eq!(l.red_score, 1);
    assert_eq!(l.game_state, GameState::RoundEnd);
}

#[test]
fn the_clock_checks_do_nothing_too_early() {
    let mut l = playing_lobby();
    assert!(!l.check_bomb_explosion());
    assert!(l.check_round_timeout().is_none());
    assert!(!l.check_build_phase_timeout());
    assert_eq!(l.check_round_restart(), (false, false));
    assert_eq!(l.game_state, GameState::Playing);
}

#[test]
fn a_round_without_a_plant_times_out_for_the_defenders() {
    let mut l = playing_lobby();
    assert!(l.check_round_timeout_after(Some(99_999)).is_none());
    assert_eq!(l.check_round_timeout_after(Some(100_000)), Some(TeamColor::Orange));
    assert_eq!(l.orange_score, 1);
    assert_eq!(l.game_state, GameState::RoundEnd);
}

#[test]
fn wiping_out_a_team_wins_the_round() {
    let mut l = playing_lobby();
    assert!(l.check_team_elimination().is_none());
    for id in ["o1", "o2"] {
        let r = l.damage_player(id, 250).unwrap();
        assert!(r.0);
    }
    assert_eq!(l.check_team_elimination(), Some(TeamColor::Red));
}

#[test]
fn defenders_wiped_out_with_the_bomb_planted_do_not_win() {
    let mut l = playing_lobby();
    l.plant_bomb("r1", None, None).unwrap();
    for id in ["r1", "r2"] {
        l.damage_player(id, 250).unwrap();
    }
    assert!(l.check_team_elimination().is_none());
}

#[test]
fn a_dead_carrier_drops_the_bomb_where_it_stood() {
    let mut l = playing_lobby();
    let r1 = find(&l, "r1");
    let (x, z) = (r1.x, r1.z);
    assert!(l.handle_player_death("r2").is_none());
    let spot = l.handle_player_death("r1").unwrap();
    assert_eq!(spot, (x, 1.0f32.to_bits(), z));
    assert!(l.bomb_dropped);
    assert!(l.bomb_carrier_id.is_none());
    assert!(!find(&l, "r1").has_bomb);
}

#[test]
fn only_a_near_attacker_picks_the_bomb_up() {
    let mut l = playing_lobby();
    l.drop_bomb("r1").unwrap();
    assert!(l.drop_bomb("r1").is_none());
    assert!(!l.pickup_bomb("o1", true));
    assert!(!l.pickup_bomb("r2", false));
    assert!(l.pickup_bomb("r2", true));
    assert_eq!(l.bomb_carrier_id.as_deref(), Some("r2"));
    assert!(find(&l, "r2").has_bomb);
    assert!(!l.bomb_dropped);
    assert!(l.bomb_position.is_none());
}

#[test]
fn damage_reports_the_hit() {
    let mut l = playing_lobby();
    assert_eq!(l.damage_player("o1", 50), Some((false, 100, 50)));
    assert_eq!(l.damage_player("o1", 120), Some((false, 30, 0)));
    assert_eq!(l.damage_player("o1", 30), Some((true, 0, 0)));
    assert_eq!(l.damage_player("o1", 30), None);
    assert_eq!(l.damage_player("ghost", 30), None);
}

#[test]
fn respawning_restores_at_the_spawn_point() {
    let mut l = playing_lobby();
    l.damage_player("o2", 300);
    let p = l.respawn_player("o2").unwrap();
    assert!(p.alive);
    assert_eq!(p.health, 100);
    assert_eq!(f32::from_bits(p.x), -15.0);
    assert_eq!(f32::from_bits(p.z), 300.0);
    assert!(l.respawn_player("ghost").is_none());
}

#[test]
fn kills_are_counted() {
    let mut l = playing_lobby();
    assert!(l.add_kill_to_player("o1"));
    assert!(l.add_kill_to_player("o1"));
    assert!(!l.add_kill_to_player("ghost"));
    assert_eq!(find(&l, "o1").kills, 2);
}

#[test]
fn the_scoreboard_ranks_by_kills_and_keeps_ties_in_order() {
    let mut l = playing_lobby();
    l.add_kill_to_player("r2");
    l.add_kill_to_player("o2");
    l.add_kill_to_player("o2");
    let rows = l.get_scoreboard_data();
    let ids: Vec<&str> = rows.iter().map(|r| r.id.as_str()).collect();
    assert_eq!(ids, vec!["o2", "r2", "o1", "r1"]);
    assert!(rows.iter().all(|r| r.money.is_none()));
}

#[test]
fn the_scoreboard_shows_money_to_the_own_team() {
    let l = playing_lobby();
    let rows = l.get_scoreboard_data_for(Some("red"));
    for r in &rows {
        if r.team.as_deref() == Some("red") {
            assert_eq!(r.money, Some(RESET_MONEY));
        } else {
            assert!(r.money.is_none());
        }
    }
    let carrier = rows.iter().find(|r| r.id == "r1").unwrap();
    assert!(carrier.has_bomb);
}

#[test]
fn team_data_lists_members_with_names() {
    let l = team_lobby();
    let (orange, red) = l.get_team_data();
    assert_eq!(orange, vec![("o1".to_string(), "name-o1".to_string()), ("o2".to_string(), "name-o2".to_string())]);
    assert_eq!(red.len(), 2);
    assert_eq!(red[0].0, "r1");
}

#[test]
fn rounds_pay_both_teams_up_to_the_cap() {
    let mut l = playing_lobby();
    for p in l.players.iter_mut() {
        p.money = 15_000;
    }
    l.end_round(TeamColor::Red, RoundEndReason::TeamEliminated);
    assert_eq!(find(&l, "r1").money, 16_000);
    assert_eq!(find(&l, "o1").money, 16_000);
    assert!(l.round_end_time.is_some());
}

#[test]
fn the_next_round_is_due_five_seconds_after_the_last() {
    let mut l = playing_lobby();
    l.end_round(TeamColor::Orange, RoundEndReason::TimeUp);
    assert_eq!(l.check_round_restart_after(Some(4_999)), (false, false));
    assert_eq!(l.check_round_restart_after(Some(5_000)), (true, false));
    assert_eq!(l.round_number, 2);
    assert_eq!(l.game_state, GameState::BuildPhase);
}

#[test]
fn the_teams_switch_sides_at_halftime() {
    let mut l = playing_lobby();
    l.round_number = 6;
    assert!(l.start_new_round_seeded(0));
    assert_eq!(l.round_number, 7);
    assert_eq!(l.attacking_team, TeamColor::Orange);
    assert_eq!(l.bomb_carrier_id.as_deref(), Some("o1"));
    for p in &l.players {
        assert_eq!(p.money, RESET_MONEY);
        assert_eq!(p.health, 100);
    }
    assert!(!l.start_new_round_seeded(1));
    assert_eq!(l.attacking_team, TeamColor::Orange);
    assert_eq!(l.bomb_carrier_id.as_deref(), Some("o2"));
}

#[test]
fn switch_sides_swaps_the_attackers() {
    let mut l = team_lobby();
    l.switch_sides();
    assert_eq!(l.attacking_team, TeamColor::Orange);
    l.switch_sides();
    assert_eq!(l.attacking_team, TeamColor::Red);
}

#[test]
fn seven_wins_end_the_match_and_the_winner_is_told_once() {
    let mut l = playing_lobby();
    l.red_score = 6;
    l.end_round(TeamColor::Red, RoundEndReason::BombExploded);
    assert_eq!(l.red_score, 7);
    assert_eq!(l.game_state, GameState::MatchEnd);
    assert_eq!(l.take_match_end_winner(), Some("red"));
    assert_eq!(l.take_match_end_winner(), None);
    assert!(l.match_end_announced);
}

#[test]
fn no_winner_before_the_match_ends() {
    let mut l = playing_lobby();
    assert_eq!(l.take_match_end_winner(), None);
}

#[test]
fn shields_regenerate_for_players_never_hit() {
    let mut l = playing_lobby();
    for p in l.players.iter_mut() {
        p.shield = 20;
    }
    let since: Vec<Option<u64>> = l.players.iter().map(|_| None).collect();
    let updates = l.update_shields_after(&since);
    assert_eq!(updates.len(), 4);
    assert!(updates.iter().all(|(_, s)| *s == 50));
    let none = l.update_shields();
    assert!(none.is_empty());
}

#[test]
fn position_updates_reach_the_player() {
    let mut l = playing_lobby();
    l.update_player_position("o1", 9.0f32.to_bits(), 0, 0, 0, 0);
    assert_eq!(f32::from_bits(find(&l, "o1").x), 9.0);
}

#[test]
fn team_colors_name_themselves() {
    assert_eq!(TeamColor::Orange.as_str(), "orange");
    assert_eq!(TeamColor::Red.opposite(), TeamColor::Orange);
}

#[test]
fn a_started_deathmatch_stays_as_it_is() {
    let mut l = Lobby::new_deathmatch("d".to_string());
    assert!(l.start_game());
    assert_eq!(l.game_state, GameState::Playing);
    assert_eq!(l.round_number, 0);
}
