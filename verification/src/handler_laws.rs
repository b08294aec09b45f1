//! What holds of the server across its messages and connections.
use crate::message_broadcaster::BroadcasterView;
use crate::lobby::{GameState, LobbyView, TeamColor};
use crate::lobby_manager::{
    lobby_ids_unique, lemma_with_lobby_lookup, restart_after, restart_checked, ManagerView,
};
use crate::message_handler::{
    disconnect_done, finish_done, join_done, match_winner_name, place_done, resume_done,
    structure_price, EffectView, HandlerView,
};
use crate::messages::MessageView;
use crate::roster::{has_player, player_of, remove_id};
use vstd::prelude::*;

verus! {

/// A message to a lobby reaches exactly the members of the lobby that are
/// connected, but the excluded one.
pub proof fn law_lobby_broadcast_reaches_members(
    b: BroadcasterView,
    lobby: Seq<char>,
    exclude: Option<Seq<char>>,
    player: Seq<char>,
)
    ensures
        b.lobby_recipients(lobby, exclude).contains(player) <==> (b.members(lobby).contains(player)
            && b.connections.contains(player) && exclude != Some(player)),
{
    let ms = b.members(lobby);
    let keep = crate::message_broadcaster::reachable(b.connections, exclude);
    broadcast use vstd::seq_lib::group_filter_ensures;

    if ms.filter(keep).contains(player) {
        let i = choose|i: int| 0 <= i < ms.filter(keep).len() && ms.filter(keep)[i] == player;
        assert(keep(ms.filter(keep)[i]));
        ms.lemma_filter_contains_rev(keep, player);
    }
    if ms.contains(player) && b.connections.contains(player) && exclude != Some(player) {
        let i = choose|i: int| 0 <= i < ms.len() && ms[i] == player;
        assert(keep(ms[i]));
        assert(ms.filter(keep).contains(ms[i]));
    }
}

/// The player table after `pid` was put in `lobby` finds `pid` in `lobby`.
proof fn lemma_assigned_lookup(o: HandlerView, n: HandlerView, pid: Seq<char>, lobby: Seq<char>)
    requires
        o.wf(),
        n.player_lobbies == o.assigned(pid, lobby),
    ensures
        n.lobby_of_player(pid) == Some(lobby),
{
    let t = n.player_lobbies;
    if o.has_assignment(pid) {
        let i = o.assignment_index(pid);
        assert(t[i].0 == pid);
        assert(n.has_assignment(pid));
        let k = n.assignment_index(pid);
        if k != i {
            assert(t[k] == o.player_lobbies[k]);
            assert(o.player_lobbies[k].0 == o.player_lobbies[i].0);
        }
    } else {
        let i = o.player_lobbies.len() as int;
        assert(t[i].0 == pid);
        assert(n.has_assignment(pid));
        let k = n.assignment_index(pid);
        if k != i {
            assert(t[k] == o.player_lobbies[k]);
        }
    }
}

/// A player that joined the game is in the deathmatch lobby, and among the
/// members that the lobby's messages go to.
pub proof fn law_join_places_player(
    o: HandlerView,
    n: HandlerView,
    pid: Seq<char>,
    name: Seq<char>,
    es: Seq<EffectView>,
)
    requires
        o.wf(),
        n.wf(),
        join_done(o, n, pid, name, es),
    ensures
        n.lobby_of_player(pid) == o.manager.deathmatch_lobby_id,
        n.broadcaster.members(o.manager.deathmatch_lobby_id.unwrap()).contains(pid),
{
    let dm = o.manager.deathmatch_lobby_id.unwrap();
    lemma_assigned_lookup(o, n, pid, dm);
    let b = o.broadcaster;
    let nb = n.broadcaster;
    assert(nb.has_lobby(dm)) by {
        if b.has_lobby(dm) {
            let i = b.lobby_index(dm);
            assert(nb.lobbies[i].0 == dm);
        } else {
            assert(nb.lobbies[b.lobbies.len() as int].0 == dm);
        }
    }
    let k = nb.lobby_index(dm);
    if b.has_lobby(dm) {
        let i = b.lobby_index(dm);
        assert(nb.lobbies[i].0 == dm);
        assert(k == i);
        let ms = b.lobbies[i].1;
        if !ms.contains(pid) {
            assert(ms.push(pid)[ms.len() as int] == pid);
        }
    } else {
        let i = b.lobbies.len() as int;
        assert(nb.lobbies[i].0 == dm);
        if k != i {
            assert(nb.lobbies[k] == b.lobbies[k]);
            assert(b.has_lobby(dm));
        }
        assert(nb.lobbies[i].1 == seq![pid]);
        assert(seq![pid][0] == pid);
    }
}

/// A player whose connection closed is in no lobby, and no longer among
/// the members of the lobby it was in.
pub proof fn law_disconnect_removes_player(
    o: HandlerView,
    n: HandlerView,
    pid: Seq<char>,
    es: Seq<EffectView>,
)
    requires
        o.wf(),
        n.wf(),
        disconnect_done(o, n, pid, es),
    ensures
        n.lobby_of_player(pid) is None,
        o.lobby_of_player(pid) matches Some(l) ==> !n.broadcaster.members(l).contains(pid),
{
    if o.has_assignment(pid) {
        let i = o.assignment_index(pid);
        let t = n.player_lobbies;
        assert(t == o.player_lobbies.remove(i));
        if n.has_assignment(pid) {
            let k = n.assignment_index(pid);
            let k0 = if k < i {
                k
            } else {
                k + 1
            };
            assert(t[k] == o.player_lobbies[k0]);
        }
        let l = o.player_lobbies[i].1;
        let b = o.broadcaster;
        let nb = n.broadcaster;
        if b.has_lobby(l) {
            let j = b.lobby_index(l);
            let ms = remove_id(b.lobbies[j].1, pid);
            assert(b.lobbies[j].1.no_duplicates());
            crate::roster::lemma_remove_id(b.lobbies[j].1, pid);
            if ms.len() != 0 && nb.has_lobby(l) {
                let k = nb.lobby_index(l);
                assert(nb.lobbies[j].0 == l);
                if k != j {
                    assert(nb.lobbies[k] == b.lobbies[k]);
                    assert(b.lobbies[k].0 == b.lobbies[j].0);
                }
            }
            if ms.len() == 0 && nb.has_lobby(l) {
                let k = nb.lobby_index(l);
                let k0 = if k < j {
                    k
                } else {
                    k + 1
                };
                assert(nb.lobbies[k] == b.lobbies[k0]);
                assert(b.lobbies[k0].0 == b.lobbies[j].0);
            }
        }
    }
}

/// A structure with a price is paid for from the placer's money, which
/// stays above zero; a placer short of money places nothing.
pub proof fn law_structures_are_paid_for(
    o: HandlerView,
    n: HandlerView,
    pid: Seq<char>,
    structure_type: Seq<char>,
    pos: (u32, u32, u32),
    es: Seq<EffectView>,
)
    requires
        o.wf(),
        place_done(o, n, pid, structure_type, pos, es),
        o.lobby_of_player(pid) is Some,
        o.manager.has(o.lobby_of_player(pid).unwrap()),
        has_player(o.manager.lobby(o.lobby_of_player(pid).unwrap()).players, pid),
        structure_price(structure_type) > 0,
    ensures
        ({
            let l = o.lobby_of_player(pid).unwrap();
            let money = player_of(o.manager.lobby(l).players, pid).money;
            let price = structure_price(structure_type);
            if money < price {
                n == o && es.len() == 0
            } else {
                &&& n.manager.has(l)
                &&& player_of(n.manager.lobby(l).players, pid).money == money - price
                &&& money - price >= 0
                &&& es.len() == 3
            }
        }),
{
    let l = o.lobby_of_player(pid).unwrap();
    let before = o.manager.lobby(l);
    let money = player_of(before.players, pid).money;
    let price = structure_price(structure_type);
    if money >= price {
        let f = |p: crate::player::PlayerView| crate::lobby::with_money(p, money - price);
        let after = crate::lobby::LobbyView {
            players: crate::roster::update_player(before.players, pid, f),
            ..before
        };
        crate::lobby_manager::lemma_lobby_wf(o.manager, l);
        crate::lobby_manager::lemma_with_lobby_lookup(o.manager, l, after);
        crate::roster::lemma_player_of_update(before.players, pid, f, pid);
    }
}


/// Whether `e` announces the end of a match.
pub open spec fn is_match_end_notice(e: EffectView) -> bool {
    e matches EffectView::Deliver(d) && d.message is MatchEnd
}

/// Whether some effect of `es` announces the end of a match.
pub open spec fn announces_match_end(es: Seq<EffectView>) -> bool {
    exists|i: int| 0 <= i < es.len() && #[trigger] is_match_end_notice(es[i])
}

/// Whether `e` starts a round, now or after the pause.
pub open spec fn starts_a_round(e: EffectView) -> bool {
    ||| e is RestartRoundLater
    ||| e matches EffectView::Deliver(d) && d.message is RoundStart
}

/// Ending a round announces the match's winner at most once: never where it
/// was announced before, and where it is announced, the lobby keeps that it
/// was, with the match over and the winner the team that reached the
/// winning score. A match that is over starts no further round.
pub proof fn law_match_end_announced_once(
    b: BroadcasterView,
    m: ManagerView,
    nm: ManagerView,
    l: Seq<char>,
    w: TeamColor,
    reason: Seq<char>,
    already_ended: bool,
    es: Seq<EffectView>,
)
    requires
        m.wf(),
        finish_done(b, m, nm, l, w, reason, already_ended, es),
    ensures
        m.has(l) ==> nm.has(l),
        m.has(l) && m.lobby(l).match_end_announced ==> nm.lobby(l).match_end_announced
            && !announces_match_end(es),
        announces_match_end(es) ==> {
            &&& m.has(l)
            &&& !m.lobby(l).match_end_announced
            &&& nm.lobby(l).match_end_announced
            &&& nm.lobby(l).game_state == GameState::MatchEnd
            &&& es.last() == crate::message_handler::deliver(
                b.lobby_recipients(l, None),
                MessageView::MatchEnd { winner: match_winner_name(nm.lobby(l)) },
            )
        },
        nm.has(l) && nm.lobby(l).game_state == GameState::MatchEnd ==> forall|i: int|
            0 <= i < es.len() ==> !starts_a_round(#[trigger] es[i]),
{
    let ended = if !already_ended && m.has(l) {
        m.with_lobby(l, m.lobby(l).round_ended(w, nm.lobby(l).round_end_time.unwrap()))
    } else {
        m
    };
    if !already_ended && m.has(l) {
        crate::lobby_manager::lemma_lobby_wf(m, l);
        lemma_with_lobby_lookup(
            m,
            l,
            m.lobby(l).round_ended(w, nm.lobby(l).round_end_time.unwrap()),
        );
    }
    let el = ended.lobby(l);
    let head = seq![
        crate::message_handler::deliver(
            b.lobby_recipients(l, None),
            MessageView::RoundEnd {
                winner: w.name(),
                reason,
                orange_score: if ended.has(l) {
                    el.orange_score
                } else {
                    0
                },
                red_score: if ended.has(l) {
                    el.red_score
                } else {
                    0
                },
            },
        ),
    ] + crate::message_handler::delivered(
        crate::announcements::money_updates(b, crate::message_handler::lobby_players(ended, l)),
    );
    assert forall|i: int| 0 <= i < head.len() implies !is_match_end_notice(#[trigger] head[i])
        && !starts_a_round(head[i]) by {
        if i > 0 {
            assert(head[i] == crate::message_handler::delivered(
                crate::announcements::money_updates(b, crate::message_handler::lobby_players(ended, l)),
            )[i - 1]);
        }
    }
    let over = ended.has(l) && el.game_state == GameState::MatchEnd;
    if over && !el.match_end_announced {
        lemma_with_lobby_lookup(ended, l, LobbyView { match_end_announced: true, ..el });
        let tail = seq![
            crate::message_handler::deliver(
                b.lobby_recipients(l, None),
                MessageView::MatchEnd { winner: match_winner_name(el) },
            ),
        ];
        assert(es == head + tail);
        assert forall|i: int| 0 <= i < es.len() implies !starts_a_round(#[trigger] es[i]) by {
            if i < head.len() {
                assert(es[i] == head[i]);
            }
        }
    } else {
        assert(!announces_match_end(es)) by {
            if announces_match_end(es) {
                let i = choose|i: int| 0 <= i < es.len() && #[trigger] is_match_end_notice(es[i]);
                if i < head.len() {
                    assert(es[i] == head[i]);
                }
            }
        }
        if over {
            assert(es == head);
            assert forall|i: int| 0 <= i < es.len() implies !starts_a_round(#[trigger] es[i]) by {
                assert(es[i] == head[i]);
            }
        }
    }
}

/// After the pause that follows a round, the match's winner is announced at
/// most once: never where it was announced before, and where it is, the
/// lobby keeps that it was. A match that is over starts no further round:
/// its lobby keeps its round number and stays over.
pub proof fn law_resume_announces_once(o: HandlerView, n: HandlerView, l: Seq<char>, es: Seq<EffectView>)
    requires
        o.wf(),
        resume_done(o, n, l, es),
    ensures
        o.manager.has(l) ==> n.manager.has(l),
        o.manager.has(l) && o.manager.lobby(l).match_end_announced ==> n.manager.lobby(
            l,
        ).match_end_announced && !announces_match_end(es),
        announces_match_end(es) ==> {
            &&& o.manager.has(l)
            &&& !o.manager.lobby(l).match_end_announced
            &&& n.manager.lobby(l).match_end_announced
        },
        o.manager.has(l) && o.manager.lobby(l).game_state == GameState::MatchEnd ==> {
            &&& n.manager.lobby(l).game_state == GameState::MatchEnd
            &&& n.manager.lobby(l).round_number == o.manager.lobby(l).round_number
            &&& forall|i: int| 0 <= i < es.len() ==> !starts_a_round(#[trigger] es[i])
        },
{
    let b = o.broadcaster;
    let before = o.manager.lobby(l);
    if o.manager.has(l) && before.game_state == GameState::MatchEnd {
        if !before.match_end_announced {
            lemma_with_lobby_lookup(o.manager, l, LobbyView { match_end_announced: true, ..before });
            assert(es.len() == 1);
            assert(!starts_a_round(es[0]));
        }
    } else if o.manager.has(l) && before.game_state != GameState::RoundEnd {
        assert(es.len() == 0);
    } else {
        let present = o.manager.has(l);
        let after = n.manager.lobby(l);
        let players = crate::message_handler::lobby_players(n.manager, l);
        let reset = if present && before.next_round_switches() {
            seq![
                EffectView::ClearStructures { lobby_id: l },
                crate::message_handler::deliver(b.lobby_recipients(l, None), MessageView::MapReset),
            ]
        } else {
            Seq::empty()
        };
        let round = seq![es[reset.len() as int]];
        let rs = crate::message_handler::delivered(crate::announcements::respawn_notices(b, l, players));
        let ms = crate::message_handler::delivered(crate::announcements::money_updates(b, players));
        let bh = crate::message_handler::bomb_handout(
            b,
            if present {
                after.bomb_carrier_id
            } else {
                None
            },
        );
        assert(es == reset + round + rs + ms + bh);
        assert(!announces_match_end(es)) by {
            if announces_match_end(es) {
                let i = choose|i: int| 0 <= i < es.len() && #[trigger] is_match_end_notice(es[i]);
                let k1 = reset.len() as int;
                let k2 = k1 + 1;
                let k3 = k2 + rs.len();
                let k4 = k3 + ms.len();
                if i < k1 {
                    assert(es[i] == reset[i]);
                } else if i < k2 {
                    assert(es[i] == round[i - k1]);
                } else if i < k3 {
                    assert(es[i] == rs[i - k2]);
                } else if i < k4 {
                    assert(es[i] == ms[i - k3]);
                } else {
                    assert(es[i] == bh[i - k4]);
                }
            }
        }
        if present {
            let seed = choose|seed: usize| after == before.next_round(seed, after.build_phase_start.unwrap());
            assert(after.match_end_announced == before.match_end_announced);
        }
    }
}

/// A round that ended is followed by one next round. Where the periodic
/// tick started it, the resume that follows the pause changes nothing and
/// announces nothing, and a later tick does not start it again.
pub proof fn law_next_round_starts_once(
    o: HandlerView,
    l: Seq<char>,
    restarted: LobbyView,
    n: HandlerView,
    es: Seq<EffectView>,
    later: LobbyView,
)
    requires
        o.wf(),
        o.manager.has(l),
        restart_checked(o.manager.lobby(l), restarted),
        restarted != o.manager.lobby(l),
        resume_done(o.with_manager(o.manager.with_lobby(l, restarted)), n, l, es),
        restart_checked(restarted, later),
    ensures
        o.manager.lobby(l).game_state == GameState::RoundEnd,
        restarted.game_state == GameState::BuildPhase,
        restarted.round_number == o.manager.lobby(l).round_number + 1,
        n == o.with_manager(o.manager.with_lobby(l, restarted)),
        es.len() == 0,
        later == restarted,
{
    let before = o.manager.lobby(l);
    let (since, seed) = choose|since: Option<u64>, seed: usize|
        since is Some == before.round_end_time is Some && #[trigger] restart_after(before, restarted, since, seed);
    assert(restart_after(before, restarted, since, seed));
    assert(before.restart_due(since));
    lemma_with_lobby_lookup(o.manager, l, restarted);
    let (since2, seed2) = choose|since: Option<u64>, seed: usize|
        since is Some == restarted.round_end_time is Some && #[trigger] restart_after(restarted, later, since, seed);
    assert(restart_after(restarted, later, since2, seed2));
}

} // verus!
