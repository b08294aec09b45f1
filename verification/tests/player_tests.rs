use rsgo::player::{Player, FULL_HEALTH, FULL_SHIELD, REGEN_SHIELD_CAP, STARTING_MONEY};
use rsgo::player_manager::PlayerManager;

fn at(x: f32, y: f32, z: f32) -> (u32, u32, u32) {
    (x.to_bits(), y.to_bits(), z.to_bits())
}

#[test]
fn new_player_starts_healthy_and_funded() {
    let p = Player::new("p1".to_string(), "Alice".to_string(), at(0.0, 5.0, 0.0));
    assert_eq!(p.health, FULL_HEALTH);
    assert_eq!(p.shield, FULL_SHIELD);
    assert_eq!(p.money, STARTING_MONEY);
    assert!(p.alive);
    assert_eq!(p.kills, 0);
    assert_eq!(p.deaths, 0);
    assert!(p.team.is_none());
    assert!(!p.has_bomb);
    assert_eq!(f32::from_bits(p.y), 5.0);
}

#[test]
fn shield_takes_damage_first() {
    let mut p = Player::new("p1".to_string(), "Alice".to_string(), at(0.0, 0.0, 0.0));
    let died = p.take_damage(50);
    assert!(!died);
    assert_eq!(p.shield, 50);
    assert_eq!(p.health, 100);
    assert!(p.last_hit_time.is_some());
    assert!(!p.shield_regen_active);
}

#[test]
fn damage_past_shield_reaches_health() {
    let mut p = Player::new("p1".to_string(), "Alice".to_string(), at(0.0, 0.0, 0.0));
    p.take_damage(50);
    let died = p.take_damage(100);
    assert!(!died);
    assert_eq!(p.shield, 0);
    assert_eq!(p.health, 50);
}

#[test]
fn hit_kills_at_zero_health() {
    let mut p = Player::new("p1".to_string(), "Alice".to_string(), at(0.0, 0.0, 0.0));
    assert!(!p.take_damage(50));
    assert!(!p.take_damage(50));
    assert!(!p.take_damage(50));
    assert!(p.take_damage(50));
    assert_eq!(p.health, 0);
    assert!(!p.alive);
}

#[test]
fn overkill_clamps_health_at_zero() {
    let mut p = Player::new("p1".to_string(), "Alice".to_string(), at(0.0, 0.0, 0.0));
    assert!(p.take_damage(500));
    assert_eq!(p.health, 0);
    assert_eq!(p.shield, 0);
}

#[test]
fn regen_tops_up_a_never_hit_player() {
    let mut p = Player::new("p1".to_string(), "Alice".to_string(), at(0.0, 0.0, 0.0));
    p.shield = 10;
    assert!(p.regen_shield_after(None));
    assert_eq!(p.shield, REGEN_SHIELD_CAP);
}

#[test]
fn regen_waits_after_a_hit() {
    let mut p = Player::new("p1".to_string(), "Alice".to_string(), at(0.0, 0.0, 0.0));
    p.take_damage(90);
    assert_eq!(p.shield, 10);
    assert!(!p.regen_shield_after(Some(1000)));
    assert_eq!(p.shield, 10);
    assert!(p.regen_shield_after(Some(5000)));
    assert_eq!(p.shield, 11);
    assert!(p.shield_regen_active);
}

#[test]
fn regen_stops_at_the_cap() {
    let mut p = Player::new("p1".to_string(), "Alice".to_string(), at(0.0, 0.0, 0.0));
    p.take_damage(51);
    assert_eq!(p.shield, 49);
    assert!(p.regen_shield_after(Some(6000)));
    assert_eq!(p.shield, 50);
    assert!(!p.shield_regen_active);
    assert!(!p.regen_shield_after(Some(7000)));
    assert_eq!(p.shield, 50);
}

#[test]
fn regen_skips_the_dead() {
    let mut p = Player::new("p1".to_string(), "Alice".to_string(), at(0.0, 0.0, 0.0));
    p.take_damage(300);
    assert!(!p.regen_shield_after(Some(10_000)));
    assert_eq!(p.shield, 0);
}

#[test]
fn update_shield_regen_reads_the_clock() {
    let mut p = Player::new("p1".to_string(), "Alice".to_string(), at(0.0, 0.0, 0.0));
    p.take_damage(90);
    // Hit just now: the delay has not passed.
    assert!(!p.update_shield_regen());
    assert_eq!(p.shield, 10);
}

#[test]
fn respawn_restores_the_player() {
    let mut p = Player::new("p1".to_string(), "Alice".to_string(), at(0.0, 0.0, 0.0));
    p.take_damage(300);
    p.add_kill();
    p.respawn(at(15.0, 10.0, -300.0));
    assert!(p.alive);
    assert_eq!(p.health, FULL_HEALTH);
    assert_eq!(p.shield, FULL_SHIELD);
    assert!(p.last_hit_time.is_none());
    assert_eq!(p.kills, 1);
    assert_eq!(f32::from_bits(p.x), 15.0);
    assert_eq!(f32::from_bits(p.z), -300.0);
}

#[test]
fn update_position_moves_and_turns() {
    let mut p = Player::new("p1".to_string(), "Alice".to_string(), at(0.0, 0.0, 0.0));
    p.update_position(1.5f32.to_bits(), 2.0f32.to_bits(), 3.0f32.to_bits(), 0.25f32.to_bits(), 1.0f32.to_bits());
    assert_eq!(f32::from_bits(p.x), 1.5);
    assert_eq!(f32::from_bits(p.rotation_x), 0.25);
    assert_eq!(f32::from_bits(p.rotation_y), 1.0);
}

#[test]
fn snapshot_copies_every_field() {
    let mut p = Player::new("p1".to_string(), "Alice".to_string(), at(1.0, 2.0, 3.0));
    p.take_damage(30);
    p.team = Some("red".to_string());
    let q = p.snapshot();
    assert_eq!(q.id, p.id);
    assert_eq!(q.shield, p.shield);
    assert_eq!(q.team, p.team);
    assert_eq!(q.last_hit_time, p.last_hit_time);
}

#[test]
fn player_manager_adds_replaces_and_removes() {
    let mut m = PlayerManager::new();
    assert_eq!(m.get_player_count(), 0);
    m.add_player(Player::new("a".to_string(), "A".to_string(), at(0.0, 0.0, 0.0)));
    m.add_player(Player::new("b".to_string(), "B".to_string(), at(0.0, 0.0, 0.0)));
    assert_eq!(m.get_player_count(), 2);
    m.add_player(Player::new("a".to_string(), "A2".to_string(), at(0.0, 0.0, 0.0)));
    assert_eq!(m.get_player_count(), 2);
    assert_eq!(m.get_player("a").unwrap().name, "A2");
    m.update_player_position("b", 7.0f32.to_bits(), 0, 0, 0, 0);
    assert_eq!(f32::from_bits(m.get_player("b").unwrap().x), 7.0);
    m.remove_player("a");
    assert!(m.get_player("a").is_none());
    let all = m.get_all_players();
    assert_eq!(all.len(), 1);
    assert_eq!(all[0].id, "b");
    m.remove_player("missing");
    assert_eq!(m.get_player_count(), 1);
}
