//! A player: identity, position, health and shield, score and economy.
//!
//! Coordinates are carried as the IEEE-754 bit patterns of `f32` values
//! (`f32::to_bits`); the library stores and copies them but never computes
//! with them.
use crate::clock;
use std::time::Instant;
use vstd::prelude::*;

verus! {

/// Health and shield a player has right after spawning.
pub const FULL_HEALTH: i32 = 100;

pub const FULL_SHIELD: i32 = 100;

/// The level that shield regeneration brings a shield back up to.
pub const REGEN_SHIELD_CAP: i32 = 50;

/// Milliseconds after the last hit before the shield starts to regenerate.
pub const REGEN_DELAY_MS: u64 = 5000;

/// Money a new player starts with.
pub const STARTING_MONEY: i32 = 800;

#[derive(Debug)]
pub struct Player {
    pub id: String,
    pub name: String,
    pub x: u32,
    pub y: u32,
    pub z: u32,
    pub rotation_x: u32,
    pub rotation_y: u32,
    pub health: i32,
    pub shield: i32,
    pub alive: bool,
    pub kills: i32,
    pub deaths: i32,
    pub team: Option<String>,
    pub money: i32,
    pub has_bomb: bool,
    pub last_hit_time: Option<Instant>,
    pub shield_regen_active: bool,
}

/// The mathematical model of a [`Player`].
#[verifier::ext_equal]
pub struct PlayerView {
    pub id: Seq<char>,
    pub name: Seq<char>,
    pub x: u32,
    pub y: u32,
    pub z: u32,
    pub rotation_x: u32,
    pub rotation_y: u32,
    pub health: int,
    pub shield: int,
    pub alive: bool,
    pub kills: int,
    pub deaths: int,
    pub team: Option<Seq<char>>,
    pub money: int,
    pub has_bomb: bool,
    pub last_hit_time: Option<Instant>,
    pub shield_regen_active: bool,
}

impl View for Player {
    type V = PlayerView;

    open spec fn view(&self) -> PlayerView {
        PlayerView {
            id: self.id@,
            name: self.name@,
            x: self.x,
            y: self.y,
            z: self.z,
            rotation_x: self.rotation_x,
            rotation_y: self.rotation_y,
            health: self.health as int,
            shield: self.shield as int,
            alive: self.alive,
            kills: self.kills as int,
            deaths: self.deaths as int,
            team: opt_text(self.team),
            money: self.money as int,
            has_bomb: self.has_bomb,
            last_hit_time: self.last_hit_time,
            shield_regen_active: self.shield_regen_active,
        }
    }
}

/// The characters of an optional string.
pub open spec fn opt_text(o: Option<String>) -> Option<Seq<char>> {
    match o {
        Some(s) => Some(s@),
        None => None,
    }
}

/// The part of a hit that the shield takes.
pub open spec fn shield_absorbs(shield: int, damage: int) -> int {
    if shield > 0 {
        if damage < shield {
            damage
        } else {
            shield
        }
    } else {
        0
    }
}

impl PlayerView {
    /// A player as it joins, at `pos`.
    pub open spec fn spawned(id: Seq<char>, name: Seq<char>, pos: (u32, u32, u32)) -> PlayerView {
        PlayerView {
            id,
            name,
            x: pos.0,
            y: pos.1,
            z: pos.2,
            rotation_x: 0,
            rotation_y: 0,
            health: FULL_HEALTH as int,
            shield: FULL_SHIELD as int,
            alive: true,
            kills: 0,
            deaths: 0,
            team: None,
            money: STARTING_MONEY as int,
            has_bomb: false,
            last_hit_time: None,
            shield_regen_active: false,
        }
    }

    pub open spec fn moved(self, x: u32, y: u32, z: u32, rotation_x: u32, rotation_y: u32) -> PlayerView {
        PlayerView { x, y, z, rotation_x, rotation_y, ..self }
    }

    /// The health a hit leaves before it is clamped at zero.
    pub open spec fn health_after_hit(self, damage: int) -> int {
        let past_shield = damage - shield_absorbs(self.shield, damage);
        if past_shield > 0 {
            self.health - past_shield
        } else {
            self.health
        }
    }

    /// Whether a hit of `damage` kills the player.
    pub open spec fn hit_kills(self, damage: int) -> bool {
        self.health_after_hit(damage) <= 0
    }

    /// Whether the arithmetic of a hit of `damage` stays within `i32`.
    pub open spec fn hit_fits(self, damage: int) -> bool {
        &&& self.shield - shield_absorbs(self.shield, damage) <= i32::MAX
        &&& self.health_after_hit(damage) >= i32::MIN
    }

    /// The player after a hit of `damage` that landed at instant `at`: the
    /// shield takes what it can, the health the rest; at zero health the
    /// player is dead.
    pub open spec fn hit(self, damage: int, at: Instant) -> PlayerView {
        let died = self.hit_kills(damage);
        PlayerView {
            shield: self.shield - shield_absorbs(self.shield, damage),
            health: if died {
                0
            } else {
                self.health_after_hit(damage)
            },
            alive: if died {
                false
            } else {
                self.alive
            },
            last_hit_time: Some(at),
            shield_regen_active: false,
            ..self
        }
    }

    /// Whether one regeneration step applies, given the milliseconds since
    /// the last hit (`None` when the player was never hit).
    pub open spec fn regen_applies(self, since_hit: Option<u64>) -> bool {
        &&& self.shield < REGEN_SHIELD_CAP
        &&& self.alive
        &&& match since_hit {
            Some(ms) => ms >= REGEN_DELAY_MS,
            None => true,
        }
    }

    /// One step of shield regeneration: a player never hit is topped up to the
    /// cap at once; a player hit long enough ago gains one point, up to the cap.
    pub open spec fn regen(self, since_hit: Option<u64>) -> PlayerView {
        if !self.regen_applies(since_hit) {
            self
        } else {
            match since_hit {
                None => PlayerView { shield: REGEN_SHIELD_CAP as int, ..self },
                Some(_) => PlayerView {
                    shield: self.shield + 1,
                    shield_regen_active: self.shield + 1 < REGEN_SHIELD_CAP,
                    ..self
                },
            }
        }
    }

    pub open spec fn respawned(self, pos: (u32, u32, u32)) -> PlayerView {
        PlayerView {
            x: pos.0,
            y: pos.1,
            z: pos.2,
            health: FULL_HEALTH as int,
            shield: FULL_SHIELD as int,
            alive: true,
            last_hit_time: None,
            shield_regen_active: false,
            ..self
        }
    }

    pub open spec fn with_kill(self) -> PlayerView {
        PlayerView { kills: self.kills + 1, ..self }
    }
}

impl Player {
    pub fn new(id: String, name: String, spawn_pos: (u32, u32, u32)) -> (p: Self)
        ensures
            p@ == PlayerView::spawned(id@, name@, spawn_pos),
    {
        Player {
            id,
            name,
            x: spawn_pos.0,
            y: spawn_pos.1,
            z: spawn_pos.2,
            rotation_x: 0,
            rotation_y: 0,
            health: FULL_HEALTH,
            shield: FULL_SHIELD,
            alive: true,
            kills: 0,
            deaths: 0,
            team: None,
            money: STARTING_MONEY,
            has_bomb: false,
            last_hit_time: None,
            shield_regen_active: false,
        }
    }

    /// A copy of this player.
    pub fn snapshot(&self) -> (p: Player)
        ensures
            p@ == self@,
    {
        Player {
            id: self.id.clone(),
            name: self.name.clone(),
            x: self.x,
            y: self.y,
            z: self.z,
            rotation_x: self.rotation_x,
            rotation_y: self.rotation_y,
            health: self.health,
            shield: self.shield,
            alive: self.alive,
            kills: self.kills,
            deaths: self.deaths,
            team: match &self.team {
                Some(t) => Some(t.clone()),
                None => None,
            },
            money: self.money,
            has_bomb: self.has_bomb,
            last_hit_time: self.last_hit_time,
            shield_regen_active: self.shield_regen_active,
        }
    }

    pub fn update_position(&mut self, x: u32, y: u32, z: u32, rotation_x: u32, rotation_y: u32)
        ensures
            final(self)@ == old(self)@.moved(x, y, z, rotation_x, rotation_y),
    {
        self.x = x;
        self.y = y;
        self.z = z;
        self.rotation_x = rotation_x;
        self.rotation_y = rotation_y;
    }

    /// Applies a hit of `damage`, shield first, and records the time of the
    /// hit. Returns whether the player died.
    pub fn take_damage(&mut self, damage: i32) -> (died: bool)
        requires
            old(self)@.hit_fits(damage as int),
        ensures
            final(self).last_hit_time is Some,
            final(self)@ == old(self)@.hit(damage as int, final(self).last_hit_time.unwrap()),
            died == old(self)@.hit_kills(damage as int),
    {
        self.last_hit_time = Some(clock::now());
        self.shield_regen_active = false;
        let mut remaining = damage;
        if self.shield > 0 {
            let shield_damage = if remaining < self.shield {
                remaining
            } else {
                self.shield
            };
            self.shield = self.shield - shield_damage;
            remaining = remaining - shield_damage;
        }
        if remaining > 0 {
            self.health = self.health - remaining;
        }
        if self.health <= 0 {
            self.health = 0;
            self.alive = false;
            true
        } else {
            false
        }
    }

    /// One step of shield regeneration, where `since_hit_ms` is the time
    /// since the last hit (`None` when there was none). Returns whether the
    /// shield changed.
    pub fn regen_shield_after(&mut self, since_hit_ms: Option<u64>) -> (changed: bool)
        requires
            since_hit_ms is Some == old(self).last_hit_time is Some,
        ensures
            final(self)@ == old(self)@.regen(since_hit_ms),
            changed == old(self)@.regen_applies(since_hit_ms),
    {
        match since_hit_ms {
            Some(ms) => {
                if ms >= REGEN_DELAY_MS && self.shield < REGEN_SHIELD_CAP && self.alive {
                    self.shield_regen_active = true;
                    self.shield = self.shield + 1;
                    if self.shield >= REGEN_SHIELD_CAP {
                        self.shield_regen_active = false;
                    }
                    true
                } else {
                    false
                }
            },
            None => {
                if self.shield < REGEN_SHIELD_CAP && self.alive {
                    self.shield = REGEN_SHIELD_CAP;
                    true
                } else {
                    false
                }
            },
        }
    }

    /// One step of shield regeneration, reading the clock for the time since
    /// the last hit. Returns whether the shield changed.
    pub fn update_shield_regen(&mut self) -> (changed: bool)
        ensures
            exists|since: Option<u64>|
                {
                    &&& since is Some == old(self).last_hit_time is Some
                    &&& final(self)@ == old(self)@.regen(since)
                    &&& changed == old(self)@.regen_applies(since)
                },
    {
        let since = match &self.last_hit_time {
            Some(t) => Some(clock::elapsed_millis(t)),
            None => None,
        };
        self.regen_shield_after(since)
    }

    pub fn add_kill(&mut self)
        requires
            old(self).kills < i32::MAX,
        ensures
            final(self)@ == old(self)@.with_kill(),
    {
        self.kills = self.kills + 1;
    }

    pub fn respawn(&mut self, spawn_pos: (u32, u32, u32))
        ensures
            final(self)@ == old(self)@.respawned(spawn_pos),
    {
        self.x = spawn_pos.0;
        self.y = spawn_pos.1;
        self.z = spawn_pos.2;
        self.health = FULL_HEALTH;
        self.shield = FULL_SHIELD;
        self.alive = true;
        self.last_hit_time = None;
        self.shield_regen_active = false;
    }
}

} // verus!
