//! Where players appear: five spawn points at each end of the map.
use crate::text::same_text;
use vstd::prelude::*;

verus! {

/// Bit patterns (`f32::to_bits`) of the coordinates the spawn points use.
pub const BITS_ZERO: u32 = 0x0000_0000;

/// `10.0`
pub const BITS_TEN: u32 = 0x4120_0000;

/// `15.0`
pub const BITS_FIFTEEN: u32 = 0x4170_0000;

/// `-15.0`
pub const BITS_MINUS_FIFTEEN: u32 = 0xC170_0000;

/// `30.0`
pub const BITS_THIRTY: u32 = 0x41F0_0000;

/// `-30.0`
pub const BITS_MINUS_THIRTY: u32 = 0xC1F0_0000;

/// `300.0`
pub const BITS_THREE_HUNDRED: u32 = 0x4396_0000;

/// `-300.0`
pub const BITS_MINUS_THREE_HUNDRED: u32 = 0xC396_0000;

/// The spawn points of the attacking side, at the bottom of the map (z = -300).
pub open spec fn attacker_spawns() -> Seq<(u32, u32, u32)> {
    seq![
        (BITS_ZERO, BITS_TEN, BITS_MINUS_THREE_HUNDRED),
        (BITS_MINUS_FIFTEEN, BITS_TEN, BITS_MINUS_THREE_HUNDRED),
        (BITS_FIFTEEN, BITS_TEN, BITS_MINUS_THREE_HUNDRED),
        (BITS_MINUS_THIRTY, BITS_TEN, BITS_MINUS_THREE_HUNDRED),
        (BITS_THIRTY, BITS_TEN, BITS_MINUS_THREE_HUNDRED),
    ]
}

/// The spawn points of the defending side, at the top of the map (z = 300).
pub open spec fn defender_spawns() -> Seq<(u32, u32, u32)> {
    seq![
        (BITS_ZERO, BITS_TEN, BITS_THREE_HUNDRED),
        (BITS_MINUS_FIFTEEN, BITS_TEN, BITS_THREE_HUNDRED),
        (BITS_FIFTEEN, BITS_TEN, BITS_THREE_HUNDRED),
        (BITS_MINUS_THIRTY, BITS_TEN, BITS_THREE_HUNDRED),
        (BITS_THIRTY, BITS_TEN, BITS_THREE_HUNDRED),
    ]
}

/// Team names that spawn with the attackers.
pub open spec fn spawns_as_attacker(team: Seq<char>) -> bool {
    team == "orange"@ || team == "attacker"@
}

/// Team names that spawn with the defenders.
pub open spec fn spawns_as_defender(team: Seq<char>) -> bool {
    !spawns_as_attacker(team) && (team == "red"@ || team == "defender"@)
}

/// The spawn point for the `count`-th member of `team`; an unknown team
/// spawns with the attackers.
pub open spec fn team_spawn(team: Seq<char>, count: int) -> (u32, u32, u32) {
    if spawns_as_defender(team) {
        defender_spawns()[count % 5]
    } else {
        attacker_spawns()[count % 5]
    }
}

/// The spawn point for the `count`-th player when no team is known: players
/// alternate between the two ends.
pub open spec fn alternating_spawn(count: int) -> (u32, u32, u32) {
    if count % 2 == 0 {
        attacker_spawns()[(count / 2) % 5]
    } else {
        defender_spawns()[(count / 2) % 5]
    }
}

/// The role names a team game spawns by: `"attacker"` and `"defender"`.
pub proof fn lemma_role_names()
    ensures
        !spawns_as_defender("attacker"@),
        spawns_as_defender("defender"@),
{
    reveal_strlit("attacker");
    reveal_strlit("defender");
    reveal_strlit("orange");
    assert("defender"@.len() == 8);
    assert("orange"@.len() == 6);
    assert("defender"@[0] != "attacker"@[0]);
    assert("defender"@ != "orange"@);
    assert("defender"@ != "attacker"@);
}

#[derive(Debug)]
pub struct SpawnSystem {
    attacker_spawn_positions: Vec<(u32, u32, u32)>,
    defender_spawn_positions: Vec<(u32, u32, u32)>,
}

impl SpawnSystem {
    #[verifier::type_invariant]
    spec fn holds_the_map_spawns(self) -> bool {
        &&& self.attacker_spawn_positions@ == attacker_spawns()
        &&& self.defender_spawn_positions@ == defender_spawns()
    }

    /// The attacker and the defender spawn points this system hands out.
    pub closed spec fn spawn_points(self) -> (Seq<(u32, u32, u32)>, Seq<(u32, u32, u32)>) {
        (self.attacker_spawn_positions@, self.defender_spawn_positions@)
    }

    pub fn new() -> (s: Self)
        ensures
            s.spawn_points() == (attacker_spawns(), defender_spawns()),
    {
        let mut attackers: Vec<(u32, u32, u32)> = Vec::new();
        attackers.push((BITS_ZERO, BITS_TEN, BITS_MINUS_THREE_HUNDRED));
        attackers.push((BITS_MINUS_FIFTEEN, BITS_TEN, BITS_MINUS_THREE_HUNDRED));
        attackers.push((BITS_FIFTEEN, BITS_TEN, BITS_MINUS_THREE_HUNDRED));
        attackers.push((BITS_MINUS_THIRTY, BITS_TEN, BITS_MINUS_THREE_HUNDRED));
        attackers.push((BITS_THIRTY, BITS_TEN, BITS_MINUS_THREE_HUNDRED));
        let mut defenders: Vec<(u32, u32, u32)> = Vec::new();
        defenders.push((BITS_ZERO, BITS_TEN, BITS_THREE_HUNDRED));
        defenders.push((BITS_MINUS_FIFTEEN, BITS_TEN, BITS_THREE_HUNDRED));
        defenders.push((BITS_FIFTEEN, BITS_TEN, BITS_THREE_HUNDRED));
        defenders.push((BITS_MINUS_THIRTY, BITS_TEN, BITS_THREE_HUNDRED));
        defenders.push((BITS_THIRTY, BITS_TEN, BITS_THREE_HUNDRED));
        assert(attackers@ =~= attacker_spawns());
        assert(defenders@ =~= defender_spawns());
        SpawnSystem { attacker_spawn_positions: attackers, defender_spawn_positions: defenders }
    }

    pub fn get_spawn_position(&self, player_count: usize) -> (pos: (u32, u32, u32))
        ensures
            pos == alternating_spawn(player_count as int),
    {
        proof {
            use_type_invariant(self);
        }
        if player_count % 2 == 0 {
            let spawn_index = (player_count / 2) % self.attacker_spawn_positions.len();
            self.attacker_spawn_positions[spawn_index]
        } else {
            let spawn_index = (player_count / 2) % self.defender_spawn_positions.len();
            self.defender_spawn_positions[spawn_index]
        }
    }

    pub fn get_team_spawn_position(&self, team: &str, team_player_count: usize) -> (pos: (
        u32,
        u32,
        u32,
    ))
        ensures
            pos == team_spawn(team@, team_player_count as int),
    {
        proof {
            use_type_invariant(self);
        }
        let attacker = same_text(team, "orange") || same_text(team, "attacker");
        let defender = same_text(team, "red") || same_text(team, "defender");
        if !attacker && defender {
            let spawn_index = team_player_count % self.defender_spawn_positions.len();
            self.defender_spawn_positions[spawn_index]
        } else {
            let spawn_index = team_player_count % self.attacker_spawn_positions.len();
            self.attacker_spawn_positions[spawn_index]
        }
    }
}

} // verus!
