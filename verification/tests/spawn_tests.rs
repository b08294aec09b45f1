use rsgo::spawn_system::SpawnSystem;

fn pos(p: (u32, u32, u32)) -> (f32, f32, f32) {
    (f32::from_bits(p.0), f32::from_bits(p.1), f32::from_bits(p.2))
}

#[test]
fn spawns_alternate_between_sides() {
    let s = SpawnSystem::new();
    assert_eq!(pos(s.get_spawn_position(0)), (0.0, 10.0, -300.0));
    assert_eq!(pos(s.get_spawn_position(1)), (0.0, 10.0, 300.0));
    assert_eq!(pos(s.get_spawn_position(2)), (-15.0, 10.0, -300.0));
    assert_eq!(pos(s.get_spawn_position(3)), (-15.0, 10.0, 300.0));
    assert_eq!(pos(s.get_spawn_position(10)), (0.0, 10.0, -300.0));
}

#[test]
fn team_spawns_follow_the_side() {
    let s = SpawnSystem::new();
    assert_eq!(pos(s.get_team_spawn_position("orange", 2)), (15.0, 10.0, -300.0));
    assert_eq!(pos(s.get_team_spawn_position("attacker", 4)), (30.0, 10.0, -300.0));
    assert_eq!(pos(s.get_team_spawn_position("red", 1)), (-15.0, 10.0, 300.0));
    assert_eq!(pos(s.get_team_spawn_position("defender", 3)), (-30.0, 10.0, 300.0));
    assert_eq!(pos(s.get_team_spawn_position("red", 5)), (0.0, 10.0, 300.0));
}

#[test]
fn unknown_team_spawns_as_attacker() {
    let s = SpawnSystem::new();
    assert_eq!(pos(s.get_team_spawn_position("spectator", 1)), (-15.0, 10.0, -300.0));
}
