//! What holds of players and lobbies across their operations.
use crate::lobby::{
    award, reset_for_round, scoreboard_entry, with_bomb, with_money, GameMode, LobbyView, TeamColor,
    GameState, HALFTIME_ROUND, LOSS_BONUS, MAX_MONEY, RESET_MONEY, ROUND_WINS_TO_WIN_MATCH,
    TEAM_CAPACITY, WIN_BONUS,
};
use crate::spawn_system::{attacker_spawns, defender_spawns};
use crate::player::{PlayerView, FULL_HEALTH, FULL_SHIELD, REGEN_SHIELD_CAP};
use crate::roster::{
    has_player, lemma_push_id, lemma_remove_id, lemma_remove_player, lemma_same_ids,
    lemma_update_player, player_index, player_of, remove_id, update_player,
};
use crate::lobby::{insert_by_kills, ranked, sorted_by_kills};
use crate::messages::ScoreboardView;
use std::time::Instant;
use vstd::prelude::*;

verus! {

/// A hit that does not kill takes exactly `damage` from health and shield
/// together, the shield first.
pub proof fn law_hit_takes_damage(p: PlayerView, damage: int, at: Instant)
    requires
        0 <= damage,
        0 <= p.shield,
        !p.hit_kills(damage),
    ensures
        p.hit(damage, at).health + p.hit(damage, at).shield == p.health + p.shield - damage,
        p.hit(damage, at).shield >= 0,
        p.hit(damage, at).shield <= p.shield,
{
}

/// A hit kills exactly when it leaves no health: the dead player is at zero
/// health and no longer alive; a survivor keeps positive health.
pub proof fn law_hit_kills_at_zero_health(p: PlayerView, damage: int, at: Instant)
    ensures
        p.hit_kills(damage) ==> p.hit(damage, at).health == 0 && !p.hit(damage, at).alive,
        !p.hit_kills(damage) ==> p.hit(damage, at).health > 0 && p.hit(damage, at).alive
            == p.alive,
        p.hit(damage, at).last_hit_time == Some(at),
{
}

/// Shield regeneration never lowers a shield, and never raises one beyond
/// the regeneration cap.
pub proof fn law_regen_bounded(p: PlayerView, since_hit: Option<u64>)
    ensures
        p.regen(since_hit).shield >= p.shield,
        p.shield <= REGEN_SHIELD_CAP ==> p.regen(since_hit).shield <= REGEN_SHIELD_CAP,
        p.regen(since_hit).health == p.health,
        p.regen(since_hit).alive == p.alive,
{
}

/// A respawned player is alive, at full health and shield, and not recently hit.
pub proof fn law_respawn_restores(p: PlayerView, pos: (u32, u32, u32))
    ensures
        p.respawned(pos).alive,
        p.respawned(pos).health == FULL_HEALTH,
        p.respawned(pos).shield == FULL_SHIELD,
        p.respawned(pos).last_hit_time is None,
        (p.respawned(pos).x, p.respawned(pos).y, p.respawned(pos).z) == pos,
        p.respawned(pos).id == p.id,
        p.respawned(pos).kills == p.kills,
        p.respawned(pos).money == p.money,
{
}

/// Every member of a team is a player of the lobby.
pub open spec fn members_are_players(l: LobbyView) -> bool {
    forall|x: Seq<char>|
        (l.orange_team.contains(x) || l.red_team.contains(x)) ==> has_player(l.players, x)
}

/// No team holds more than its capacity.
pub open spec fn teams_within_capacity(l: LobbyView) -> bool {
    l.orange_team.len() <= TEAM_CAPACITY && l.red_team.len() <= TEAM_CAPACITY
}

/// The bomb is held by no one but its carrier.
pub open spec fn bomb_held_by_carrier(l: LobbyView) -> bool {
    forall|i: int|
        0 <= i < l.players.len() && #[trigger] l.players[i].has_bomb ==> l.bomb_carrier_id == Some(
            l.players[i].id,
        )
}

/// Joining a team never fills it beyond its capacity, and a player who
/// joined is on the chosen team and not on the other.
pub proof fn law_join_team(l: LobbyView, id: Seq<char>, team: TeamColor)
    requires
        l.wf(),
        teams_within_capacity(l),
    ensures
        l.joined_team(id, team).wf(),
        teams_within_capacity(l.joined_team(id, team)),
        l.can_join(id, team) ==> l.joined_team(id, team).team_ids(team).contains(id) && !l.joined_team(
            id,
            team,
        ).team_ids(team.other()).contains(id),
        has_player(l.players, id) && !l.can_join(id, team) ==> !l.joined_team(
            id,
            team,
        ).orange_team.contains(id) && !l.joined_team(id, team).red_team.contains(id),
{
    lemma_remove_id(l.orange_team, id);
    lemma_remove_id(l.red_team, id);
    let r = l.joined_team(id, team);
    if has_player(l.players, id) && l.can_join(id, team) {
        match team {
            TeamColor::Orange => {
                lemma_push_id(remove_id(l.orange_team, id), id);
                lemma_update_player(
                    l.players,
                    id,
                    |p: PlayerView| crate::lobby::with_team(p, "orange"@),
                );
            },
            TeamColor::Red => {
                lemma_push_id(remove_id(l.red_team, id), id);
                lemma_update_player(
                    l.players,
                    id,
                    |p: PlayerView| crate::lobby::with_team(p, "red"@),
                );
            },
        }
        assert(r.team_ids(team).last() == id);
        assert(r.team_ids(team).contains(id));
        assert forall|a: int, b: int| 0 <= a < r.orange_team.len() && 0 <= b < r.red_team.len()
            implies r.orange_team[a] != r.red_team[b] by {
            let x = r.orange_team[a];
            assert(r.orange_team.contains(x));
            assert(r.red_team.contains(r.red_team[b]));
            if x == r.red_team[b] && x != id {
                assert(l.orange_team.contains(x));
                assert(l.red_team.contains(x));
                let k1 = choose|k: int| 0 <= k < l.orange_team.len() && l.orange_team[k] == x;
                let k2 = choose|k: int| 0 <= k < l.red_team.len() && l.red_team[k] == x;
                assert(l.orange_team[k1] == l.red_team[k2]);
            }
        }
    }
    if has_player(l.players, id) {
        crate::roster::lemma_disjoint_within(
            l.orange_team,
            l.red_team,
            remove_id(l.orange_team, id),
            remove_id(l.red_team, id),
        );
    }
}

/// Joining a team, adding a player and removing one all keep every team
/// member a player of the lobby.
pub proof fn law_members_stay_players(l: LobbyView, id: Seq<char>, team: TeamColor, p: PlayerView)
    requires
        l.wf(),
        members_are_players(l),
    ensures
        members_are_players(l.joined_team(id, team)),
        members_are_players(l.without_player(id)),
        members_are_players(l.with_player(p)),
{
    lemma_remove_id(l.orange_team, id);
    lemma_remove_id(l.red_team, id);
    lemma_remove_player(l.players, id);
    let j = l.joined_team(id, team);
    if has_player(l.players, id) {
        let f = |q: PlayerView|
            crate::lobby::with_team(
                q,
                match team {
                    TeamColor::Orange => "orange"@,
                    TeamColor::Red => "red"@,
                },
            );
        lemma_update_player(l.players, id, f);
        lemma_same_ids(l.players, update_player(l.players, id, f));
        if l.can_join(id, team) {
            match team {
                TeamColor::Orange => lemma_push_id(remove_id(l.orange_team, id), id),
                TeamColor::Red => lemma_push_id(remove_id(l.red_team, id), id),
            }
        }
        assert(j.players == l.players || j.players == update_player(l.players, id, f));
    }
    let wo = l.without_player(id);
    assert forall|x: Seq<char>| (wo.orange_team.contains(x) || wo.red_team.contains(x)) implies has_player(
        wo.players,
        x,
    ) by {
        assert(x != id);
        assert(l.orange_team.contains(x) || l.red_team.contains(x));
    }
    let w = l.with_player(p);
    if has_player(l.players, p.id) {
        let g = |q: PlayerView| p;
        let k = player_index(l.players, p.id);
        assert forall|x: Seq<char>| has_player(l.players, x) implies has_player(w.players, x) by {
            let i = choose|i: int| 0 <= i < l.players.len() && #[trigger] l.players[i].id == x;
            if i == k {
                assert(w.players[i].id == p.id);
            } else {
                assert(w.players[i] == l.players[i]);
            }
        }
    } else {
        assert forall|x: Seq<char>| has_player(l.players, x) implies has_player(w.players, x) by {
            let i = choose|i: int| 0 <= i < l.players.len() && #[trigger] l.players[i].id == x;
            assert(w.players[i] == l.players[i]);
        }
    }
}

/// A round's end gives the winner exactly one point, leaves the loser's
/// score alone, and ends the match exactly when a team reached the winning
/// score.
pub proof fn law_round_scores(l: LobbyView, winner: TeamColor, at: Instant)
    ensures
        l.round_ended(winner, at).score(winner) == l.score(winner) + 1,
        l.round_ended(winner, at).score(winner.other()) == l.score(winner.other()),
        (l.round_ended(winner, at).game_state == GameState::MatchEnd) <==> (l.round_ended(
            winner,
            at,
        ).orange_score >= ROUND_WINS_TO_WIN_MATCH || l.round_ended(winner, at).red_score
            >= ROUND_WINS_TO_WIN_MATCH),
        l.round_ended(winner, at).game_state != GameState::MatchEnd ==> l.round_ended(
            winner,
            at,
        ).game_state == GameState::RoundEnd,
{
}

/// Round bonuses never take money from a player within the cap, never push
/// anyone beyond the cap, and change nothing but money.
pub proof fn law_round_bonuses(l: LobbyView, winner: TeamColor, at: Instant)
    ensures
        l.round_ended(winner, at).players.len() == l.players.len(),
        forall|i: int|
            0 <= i < l.players.len() && l.players[i].money <= MAX_MONEY ==> l.players[i].money
                <= #[trigger] l.round_ended(winner, at).players[i].money <= MAX_MONEY,
        forall|i: int|
            0 <= i < l.players.len() ==> #[trigger] l.round_ended(winner, at).players[i] == with_money(
                l.players[i],
                l.round_ended(winner, at).players[i].money,
            ),
{
    let a = award(l.players, l.team_ids(winner), 3000);
    let b = award(a, l.team_ids(winner.other()), 1400);
    assert forall|i: int| 0 <= i < l.players.len() implies #[trigger] b[i] == with_money(
        l.players[i],
        b[i].money,
    ) by {
        assert(a[i] == with_money(l.players[i], a[i].money));
    }
}

/// A new round increments the round number, opens the build phase with no
/// bomb planted, and switches sides exactly at halftime.
pub proof fn law_next_round(l: LobbyView, seed: usize, at: Instant)
    ensures
        l.next_round(seed, at).round_number == l.round_number + 1,
        l.next_round(seed, at).game_state == GameState::BuildPhase,
        !l.next_round(seed, at).bomb_planted,
        l.next_round(seed, at).attacking_team == if l.round_number + 1 == HALFTIME_ROUND {
            l.attacking_team.other()
        } else {
            l.attacking_team
        },
        l.next_round(seed, at).orange_score == l.orange_score,
        l.next_round(seed, at).red_score == l.red_score,
{
}

/// At the start of a new round every player is alive at full health and
/// shield at the spawn point of its side; at the first round and at halftime
/// everyone has the reset money, and in every other round each player keeps
/// the money it had.
pub proof fn law_round_start_players(l: LobbyView, seed: usize, at: Instant)
    requires
        l.wf(),
    ensures
        l.next_round(seed, at).players.len() == l.players.len(),
        forall|i: int|
            0 <= i < l.players.len() ==> {
                let q = #[trigger] l.next_round(seed, at).players[i];
                &&& q.id == l.players[i].id
                &&& q.alive
                &&& q.health == FULL_HEALTH
                &&& q.shield == FULL_SHIELD
                &&& (l.round_number + 1 == 1 || l.round_number + 1 == HALFTIME_ROUND) ==> q.money
                    == RESET_MONEY
                &&& !(l.round_number + 1 == 1 || l.round_number + 1 == HALFTIME_ROUND) ==> q.money
                    == l.players[i].money
                &&& (q.x, q.y, q.z) == l.next_round(seed, at).spawn_position(q.id)
            },
{
    let r = l.next_round(seed, at);
    let round = l.round_number + 1;
    let attacking = if round == HALFTIME_ROUND {
        l.attacking_team.other()
    } else {
        l.attacking_team
    };
    let base = LobbyView {
        round_number: round,
        attacking_team: attacking,
        game_state: GameState::BuildPhase,
        build_phase_start: Some(at),
        bomb_planted: false,
        bomb_plant_time: None,
        ..l
    };
    let reset = base.players.map_values(
        |p: PlayerView| reset_for_round(p, base.spawn_position(p.id)),
    );
    assert forall|j: int| 0 <= j < l.players.len() implies #[trigger] reset[j].id == l.players[j].id by {}
    lemma_same_ids(l.players, reset);
    let attackers = base.team_ids(attacking);
    if attackers.len() > 0 {
        let carrier = attackers[seed as int % attackers.len() as int];
        lemma_update_player(reset, carrier, |p: PlayerView| with_bomb(p, true));
    }
}

/// In a new round the bomb goes to a member of the attacking team whenever
/// that team has members, and no one but the carrier holds it.
pub proof fn law_round_start_bomb(l: LobbyView, seed: usize, at: Instant)
    requires
        l.wf(),
    ensures
        l.next_round(seed, at).team_ids(l.next_round(seed, at).attacking_team).len() > 0
            ==> (l.next_round(seed, at).bomb_carrier_id matches Some(c) && l.next_round(
            seed,
            at,
        ).team_ids(l.next_round(seed, at).attacking_team).contains(c)),
        l.next_round(seed, at).team_ids(l.next_round(seed, at).attacking_team).len() > 0
            ==> bomb_held_by_carrier(l.next_round(seed, at)),
{
    let r = l.next_round(seed, at);
    let round = l.round_number + 1;
    let attacking = if round == HALFTIME_ROUND {
        l.attacking_team.other()
    } else {
        l.attacking_team
    };
    let base = LobbyView {
        round_number: round,
        attacking_team: attacking,
        game_state: GameState::BuildPhase,
        build_phase_start: Some(at),
        bomb_planted: false,
        bomb_plant_time: None,
        ..l
    };
    let reset = base.players.map_values(
        |p: PlayerView| reset_for_round(p, base.spawn_position(p.id)),
    );
    assert forall|j: int| 0 <= j < l.players.len() implies #[trigger] reset[j].id == l.players[j].id by {}
    lemma_same_ids(l.players, reset);
    let attackers = base.team_ids(attacking);
    if attackers.len() > 0 {
        let idx = seed as int % attackers.len() as int;
        let carrier = attackers[idx];
        assert(attackers.contains(carrier));
        lemma_update_player(reset, carrier, |p: PlayerView| with_bomb(p, true));
        let armed = update_player(reset, carrier, |p: PlayerView| with_bomb(p, true));
        assert forall|i: int| 0 <= i < r.players.len() && #[trigger] r.players[i].has_bomb implies r.bomb_carrier_id
            == Some(r.players[i].id) by {
            assert(armed[i] == if reset[i].id == carrier {
                with_bomb(reset[i], true)
            } else {
                reset[i]
            });
        }
    }
}

/// Planting and dropping the bomb, picking it up while no one carries it, and
/// ending a round keep the bomb with no one but its carrier.
pub proof fn law_bomb_stays_with_carrier(
    l: LobbyView,
    id: Seq<char>,
    x: Option<u32>,
    z: Option<u32>,
    at: Instant,
    winner: TeamColor,
)
    requires
        l.wf(),
        bomb_held_by_carrier(l),
    ensures
        l.can_plant(id) ==> bomb_held_by_carrier(l.planted(id, x, z, at)),
        l.can_drop(id) ==> bomb_held_by_carrier(l.dropped(id)),
        has_player(l.players, id) && l.bomb_carrier_id is None ==> bomb_held_by_carrier(
            l.picked_up(id),
        ),
        bomb_held_by_carrier(l.round_ended(winner, at)),
{
    lemma_update_player(l.players, id, |p: PlayerView| with_bomb(p, false));
    lemma_update_player(l.players, id, |p: PlayerView| with_bomb(p, true));
    if l.can_plant(id) {
        let r = l.planted(id, x, z, at);
        assert forall|i: int| 0 <= i < r.players.len() && #[trigger] r.players[i].has_bomb implies r.bomb_carrier_id
            == Some(r.players[i].id) by {
            assert(l.players[i].has_bomb);
        }
    }
    if l.can_drop(id) {
        let r = l.dropped(id);
        assert forall|i: int| 0 <= i < r.players.len() && #[trigger] r.players[i].has_bomb implies r.bomb_carrier_id
            == Some(r.players[i].id) by {
            assert(l.players[i].has_bomb);
        }
    }
    if has_player(l.players, id) && l.bomb_carrier_id is None {
        let r = l.picked_up(id);
        assert forall|i: int| 0 <= i < r.players.len() && #[trigger] r.players[i].has_bomb implies r.bomb_carrier_id
            == Some(r.players[i].id) by {
            if r.players[i].id != id {
                assert(l.players[i].has_bomb);
            }
        }
    }
    let e = l.round_ended(winner, at);
    let a = award(l.players, l.team_ids(winner), 3000);
    assert forall|i: int| 0 <= i < e.players.len() && #[trigger] e.players[i].has_bomb implies e.bomb_carrier_id
        == Some(e.players[i].id) by {
        assert(e.players[i].has_bomb == a[i].has_bomb);
        assert(e.players[i].id == a[i].id);
        assert(a[i].has_bomb == l.players[i].has_bomb);
        assert(a[i].id == l.players[i].id);
    }
}

/// A defuse ends the round with the defenders one point up and the bomb gone;
/// an explosion ends it with the attackers one point up.
pub proof fn law_bomb_outcomes(l: LobbyView, at: Instant)
    ensures
        l.defused(at).score(l.defending_team()) == l.score(l.defending_team()) + 1,
        !l.defused(at).bomb_planted,
        l.defused(at).bomb_position is None,
        l.bomb_cleared().round_ended(l.attacking_team, at).score(l.attacking_team) == l.score(
            l.attacking_team,
        ) + 1,
        !l.bomb_cleared().round_ended(l.attacking_team, at).bomb_planted,
{
}

/// A team wins by elimination only when it has a living member and the
/// other team has none, and never as the defenders while the bomb is planted.
pub proof fn law_elimination(l: LobbyView)
    ensures
        l.elimination_winner() matches Some(t) ==> {
            &&& l.team_alive(t)
            &&& !l.team_alive(t.other())
            &&& !(l.bomb_planted && t == l.defending_team())
            &&& (l.game_state == GameState::BuildPhase || l.game_state == GameState::Playing)
        },
{
}


/// Placing a row into rows ordered by kills keeps them ordered, adds just
/// that row, and brings in nothing else.
proof fn lemma_insert_by_kills_sorted(rows: Seq<ScoreboardView>, r: ScoreboardView)
    requires
        sorted_by_kills(rows),
    ensures
        sorted_by_kills(insert_by_kills(rows, r)),
        insert_by_kills(rows, r).to_multiset() == rows.to_multiset().insert(r),
        forall|i: int|
            0 <= i < insert_by_kills(rows, r).len() ==> #[trigger] insert_by_kills(rows, r)[i] == r
                || rows.contains(insert_by_kills(rows, r)[i]),
    decreases rows.len(),
{
    broadcast use vstd::multiset::group_multiset_axioms;

    let res = insert_by_kills(rows, r);
    if rows.len() == 0 {
        assert(res =~= seq![r]);
        assert(seq![r] =~= Seq::<ScoreboardView>::empty().push(r));
        vstd::seq_lib::to_multiset_build(Seq::<ScoreboardView>::empty(), r);
        vstd::seq_lib::to_multiset_len(Seq::<ScoreboardView>::empty());
        assert(Seq::<ScoreboardView>::empty().to_multiset() =~= vstd::multiset::Multiset::empty());
        assert(rows =~= Seq::<ScoreboardView>::empty());
    } else if rows[0].kills >= r.kills {
        let rest = rows.skip(1);
        assert(sorted_by_kills(rest)) by {
            assert forall|i: int, j: int| 0 <= i < j < rest.len() implies rest[i].kills >= rest[j].kills by {
                assert(rest[i] == rows[i + 1]);
                assert(rest[j] == rows[j + 1]);
            }
        }
        lemma_insert_by_kills_sorted(rest, r);
        let tail = insert_by_kills(rest, r);
        assert(res == seq![rows[0]] + tail);
        assert forall|j: int| 0 <= j < tail.len() implies rows[0].kills >= #[trigger] tail[j].kills by {
            if tail[j] != r {
                assert(rest.contains(tail[j]));
                let k = choose|k: int| 0 <= k < rest.len() && rest[k] == tail[j];
                assert(rest[k] == rows[k + 1]);
            }
        }
        assert forall|i: int, j: int| 0 <= i < j < res.len() implies res[i].kills >= res[j].kills by {
            assert(res[j] == tail[j - 1]);
            if i > 0 {
                assert(res[i] == tail[i - 1]);
            }
        }
        assert forall|i: int| 0 <= i < res.len() implies #[trigger] res[i] == r || rows.contains(res[i]) by {
            if i == 0 {
                assert(rows[0] == res[0]);
            } else {
                assert(res[i] == tail[i - 1]);
                if tail[i - 1] != r {
                    let k = choose|k: int| 0 <= k < rest.len() && rest[k] == tail[i - 1];
                    assert(rows[k + 1] == res[i]);
                }
            }
        }
        assert(rows =~= seq![rows[0]] + rest);
        vstd::seq_lib::lemma_multiset_commutative(seq![rows[0]], rest);
        vstd::seq_lib::lemma_multiset_commutative(seq![rows[0]], tail);
        assert(res.to_multiset() =~= rows.to_multiset().insert(r));
    } else {
        assert(res == seq![r] + rows);
        assert forall|i: int, j: int| 0 <= i < j < res.len() implies res[i].kills >= res[j].kills by {
            assert(res[j] == rows[j - 1]);
            if i > 0 {
                assert(res[i] == rows[i - 1]);
            } else if j > 1 {
                assert(rows[0].kills >= rows[j - 1].kills);
            }
        }
        assert forall|i: int| 0 <= i < res.len() implies #[trigger] res[i] == r || rows.contains(res[i]) by {
            if i > 0 {
                assert(res[i] == rows[i - 1]);
            }
        }
        vstd::seq_lib::lemma_multiset_commutative(seq![r], rows);
        assert(seq![r].to_multiset() =~= vstd::multiset::Multiset::empty().insert(r)) by {
            assert(seq![r] =~= Seq::<ScoreboardView>::empty().push(r));
            vstd::seq_lib::to_multiset_build(Seq::<ScoreboardView>::empty(), r);
            vstd::seq_lib::to_multiset_len(Seq::<ScoreboardView>::empty());
            assert(Seq::<ScoreboardView>::empty().to_multiset() =~= vstd::multiset::Multiset::empty());
        }
        assert(res.to_multiset() =~= rows.to_multiset().insert(r));
    }
}

/// The scoreboard lists every row once, most kills first.
pub proof fn law_scoreboard_ranked(rows: Seq<ScoreboardView>)
    ensures
        sorted_by_kills(ranked(rows)),
        ranked(rows).to_multiset() == rows.to_multiset(),
    decreases rows.len(),
{
    if rows.len() == 0 {
        assert(ranked(rows) =~= rows);
    } else {
        let front = rows.drop_last();
        law_scoreboard_ranked(front);
        lemma_insert_by_kills_sorted(ranked(front), rows.last());
        assert(front.push(rows.last()) =~= rows);
        vstd::seq_lib::to_multiset_build(front, rows.last());
    }
}


/// Once a lobby has announced the winner of its match, no change of the
/// lobby takes that back: players coming and going, joining teams, rounds
/// starting and ending, the build phase ending and the bomb changing hands
/// all keep it announced.
pub proof fn law_announcement_is_kept(
    l: LobbyView,
    id: Seq<char>,
    p: PlayerView,
    team: TeamColor,
    seed: usize,
    at: Instant,
    x: Option<u32>,
    z: Option<u32>,
    winner: TeamColor,
)
    requires
        l.match_end_announced,
    ensures
        l.with_player(p).match_end_announced,
        l.without_player(id).match_end_announced,
        l.joined_team(id, team).match_end_announced,
        l.started(seed, at).match_end_announced,
        l.next_round(seed, at).match_end_announced,
        l.build_ended(at).match_end_announced,
        l.planted(id, x, z, at).match_end_announced,
        l.round_ended(winner, at).match_end_announced,
        l.bomb_cleared().match_end_announced,
        l.defused(at).match_end_announced,
        l.dropped(id).match_end_announced,
        l.picked_up(id).match_end_announced,
{
}

/// No id is on both teams of a lobby.
proof fn lemma_teams_apart(l: LobbyView, id: Seq<char>)
    requires
        l.wf(),
    ensures
        !(l.orange_team.contains(id) && l.red_team.contains(id)),
{
    if l.orange_team.contains(id) && l.red_team.contains(id) {
        let i = choose|i: int| 0 <= i < l.orange_team.len() && l.orange_team[i] == id;
        let j = choose|j: int| 0 <= j < l.red_team.len() && l.red_team[j] == id;
        assert(l.orange_team[i] != l.red_team[j]);
    }
}

/// A team has a living player exactly when one of the lobby's players is
/// alive and listed on that team.
proof fn lemma_team_alive_iff(l: LobbyView, t: TeamColor)
    requires
        l.wf(),
    ensures
        l.team_alive(t) <==> exists|k: int|
            0 <= k < l.players.len() && (#[trigger] l.players[k]).alive && l.team_ids(t).contains(
                l.players[k].id,
            ),
{
    let ids = l.team_ids(t);
    let ps = l.players;
    if l.team_alive(t) {
        let i = choose|i: int|
            0 <= i < ids.len() && has_player(ps, #[trigger] ids[i]) && player_of(ps, ids[i]).alive;
        let k = player_index(ps, ids[i]);
        assert(ps[k].id == ids[i]);
        assert(ids.contains(ps[k].id));
        assert(0 <= k < ps.len() && ps[k].alive && ids.contains(ps[k].id));
    }
    if exists|k: int| 0 <= k < ps.len() && (#[trigger] ps[k]).alive && ids.contains(ps[k].id) {
        let k = choose|k: int| 0 <= k < ps.len() && (#[trigger] ps[k]).alive && ids.contains(ps[k].id);
        let id = ps[k].id;
        let i = choose|i: int| 0 <= i < ids.len() && ids[i] == id;
        assert(has_player(ps, id));
        let pi = player_index(ps, id);
        assert(ps[pi].id == ps[k].id);
        assert(pi == k);
        assert(has_player(ps, ids[i]) && player_of(ps, ids[i]).alive);
    }
}

/// A team with a living player is never beaten by elimination, and a team
/// that wins by elimination has a living player of its own; a team counts
/// as alive as long as any one of its players is.
pub proof fn law_elimination_by_living_players(l: LobbyView, t: TeamColor, j: int)
    requires
        l.wf(),
    ensures
        l.team_alive(t) <==> exists|k: int|
            0 <= k < l.players.len() && (#[trigger] l.players[k]).alive && l.team_ids(t).contains(
                l.players[k].id,
            ),
        0 <= j < l.players.len() && l.players[j].alive && l.team_ids(t).contains(l.players[j].id)
            ==> l.elimination_winner() != Some(t.other()),
        l.elimination_winner() == Some(t) ==> exists|k: int|
            0 <= k < l.players.len() && (#[trigger] l.players[k]).alive && l.team_ids(t).contains(
                l.players[k].id,
            ),
{
    lemma_team_alive_iff(l, t);
    lemma_team_alive_iff(l, t.other());
    if 0 <= j < l.players.len() && l.players[j].alive && l.team_ids(t).contains(l.players[j].id) {
        assert(l.team_alive(t));
    }
}

/// A member of the attacking team spawns at the attackers' spawn point and
/// a member of the defending team at the defenders', each numbered by the
/// player's place in its team.
pub proof fn law_spawn_by_side(l: LobbyView, id: Seq<char>)
    requires
        l.wf(),
        l.game_mode == GameMode::TeamVsTeam,
    ensures
        l.team_ids(l.attacking_team).contains(id) ==> l.spawn_position(id) == attacker_spawns()[l.team_ids(
            l.attacking_team,
        ).index_of(id) % 5],
        l.team_ids(l.defending_team()).contains(id) ==> l.spawn_position(id) == defender_spawns()[l.team_ids(
            l.defending_team(),
        ).index_of(id) % 5],
{
    lemma_teams_apart(l, id);
}

/// The end of a round pays each member of the winning team the win bonus
/// and each member of the losing team the loss bonus, neither beyond
/// [`MAX_MONEY`]; a player on neither team keeps its money.
pub proof fn law_round_pays_winner_and_loser(l: LobbyView, winner: TeamColor, at: Instant)
    requires
        l.wf(),
    ensures
        forall|i: int|
            0 <= i < l.players.len() ==> {
                let before = l.players[i].money;
                let after = (#[trigger] l.round_ended(winner, at).players[i]).money;
                &&& l.team_ids(winner).contains(l.players[i].id) ==> after == if before + WIN_BONUS
                    < MAX_MONEY {
                    before + WIN_BONUS
                } else {
                    MAX_MONEY as int
                }
                &&& l.team_ids(winner.other()).contains(l.players[i].id) ==> after == if before
                    + LOSS_BONUS < MAX_MONEY {
                    before + LOSS_BONUS
                } else {
                    MAX_MONEY as int
                }
                &&& !l.team_ids(winner).contains(l.players[i].id) && !l.team_ids(
                    winner.other(),
                ).contains(l.players[i].id) ==> after == before
            },
{
    let a = award(l.players, l.team_ids(winner), WIN_BONUS as int);
    let b = award(a, l.team_ids(winner.other()), LOSS_BONUS as int);
    assert forall|i: int| 0 <= i < l.players.len() implies {
        let before = l.players[i].money;
        let after = (#[trigger] l.round_ended(winner, at).players[i]).money;
        &&& l.team_ids(winner).contains(l.players[i].id) ==> after == if before + WIN_BONUS < MAX_MONEY {
            before + WIN_BONUS
        } else {
            MAX_MONEY as int
        }
        &&& l.team_ids(winner.other()).contains(l.players[i].id) ==> after == if before + LOSS_BONUS
            < MAX_MONEY {
            before + LOSS_BONUS
        } else {
            MAX_MONEY as int
        }
        &&& !l.team_ids(winner).contains(l.players[i].id) && !l.team_ids(winner.other()).contains(
            l.players[i].id,
        ) ==> after == before
    } by {
        lemma_teams_apart(l, l.players[i].id);
        assert(a[i].id == l.players[i].id);
        assert(l.round_ended(winner, at).players[i] == b[i]);
    }
}

/// The scoreboard of the players `ps` as a member of team `viewer` sees it.
pub open spec fn scoreboard_seen_by(ps: Seq<PlayerView>, viewer: Option<Seq<char>>) -> Seq<ScoreboardView> {
    ranked(ps.map_values(|p: PlayerView| scoreboard_entry(p, viewer)))
}

/// The scoreboard has a row for each player and only for players: each row
/// carries the player's id, name, kills, deaths, team and state, and shows
/// the money only to a viewer of the player's own team.
pub proof fn law_scoreboard_rows_are_the_players(ps: Seq<PlayerView>, viewer: Option<Seq<char>>)
    ensures
        scoreboard_seen_by(ps, viewer).len() == ps.len(),
        forall|i: int|
            0 <= i < ps.len() ==> exists|j: int|
                #![trigger ps[j]]
                0 <= j < ps.len() && {
                    let r = #[trigger] scoreboard_seen_by(ps, viewer)[i];
                    &&& r.id == ps[j].id
                    &&& r.name == ps[j].name
                    &&& r.kills == ps[j].kills
                    &&& r.deaths == ps[j].deaths
                    &&& r.team == ps[j].team
                    &&& r.alive == ps[j].alive
                    &&& r.has_bomb == ps[j].has_bomb
                    &&& r.money == if viewer is Some && viewer == ps[j].team {
                        Some(ps[j].money)
                    } else {
                        None
                    }
                },
        forall|j: int|
            0 <= j < ps.len() ==> #[trigger] scoreboard_seen_by(ps, viewer).contains(scoreboard_entry(ps[j], viewer)),
{
    broadcast use vstd::seq_lib::group_to_multiset_ensures;

    let rows = ps.map_values(|p: PlayerView| scoreboard_entry(p, viewer));
    let out = ranked(rows);
    assert(out == scoreboard_seen_by(ps, viewer));
    law_scoreboard_ranked(rows);
    assert(out.len() == rows.len()) by {
        vstd::seq_lib::to_multiset_len(out);
        vstd::seq_lib::to_multiset_len(rows);
    }
    assert forall|i: int| 0 <= i < ps.len() implies exists|j: int|
        #![trigger ps[j]]
        0 <= j < ps.len() && {
            let r = #[trigger] out[i];
            &&& r.id == ps[j].id
            &&& r.name == ps[j].name
            &&& r.kills == ps[j].kills
            &&& r.deaths == ps[j].deaths
            &&& r.team == ps[j].team
            &&& r.alive == ps[j].alive
            &&& r.has_bomb == ps[j].has_bomb
            &&& r.money == if viewer is Some && viewer == ps[j].team {
                Some(ps[j].money)
            } else {
                None
            }
        } by {
        assert(out.contains(out[i]));
        assert(out.to_multiset().count(out[i]) > 0);
        assert(rows.to_multiset().count(out[i]) > 0);
        assert(rows.contains(out[i]));
        let j = choose|j: int| 0 <= j < rows.len() && rows[j] == out[i];
        assert(rows[j] == scoreboard_entry(ps[j], viewer));
    }
    assert forall|j: int| 0 <= j < ps.len() implies #[trigger] scoreboard_seen_by(ps, viewer).contains(scoreboard_entry(ps[j], viewer)) by {
        assert(rows[j] == scoreboard_entry(ps[j], viewer));
        assert(rows.contains(rows[j]));
        assert(rows.to_multiset().count(rows[j]) > 0);
        assert(out.to_multiset().count(rows[j]) > 0);
    }
}

} // verus!
