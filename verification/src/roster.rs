//! Sequences of players and of player ids, as a lobby keeps them: each player
//! occurs once, and is found again by id.
use crate::player::{Player, PlayerView};
use vstd::prelude::*;

verus! {

pub open spec fn players_view(ps: Seq<Player>) -> Seq<PlayerView> {
    ps.map_values(|p: Player| p@)
}

pub open spec fn ids_view(ids: Seq<String>) -> Seq<Seq<char>> {
    ids.map_values(|s: String| s@)
}

/// No two players share an id.
pub open spec fn ids_unique(ps: Seq<PlayerView>) -> bool {
    forall|i: int, j: int|
        0 <= i < ps.len() && 0 <= j < ps.len() && #[trigger] ps[i].id == #[trigger] ps[j].id ==> i
            == j
}

pub open spec fn has_player(ps: Seq<PlayerView>, id: Seq<char>) -> bool {
    exists|i: int| 0 <= i < ps.len() && #[trigger] ps[i].id == id
}

/// Where the player with `id` stands (meaningful when there is one).
pub open spec fn player_index(ps: Seq<PlayerView>, id: Seq<char>) -> int {
    choose|i: int| 0 <= i < ps.len() && #[trigger] ps[i].id == id
}

/// The player with `id` (meaningful when there is one).
pub open spec fn player_of(ps: Seq<PlayerView>, id: Seq<char>) -> PlayerView {
    ps[player_index(ps, id)]
}

/// `ps` with `f` applied to the player with `id`, if there is one.
pub open spec fn update_player(
    ps: Seq<PlayerView>,
    id: Seq<char>,
    f: spec_fn(PlayerView) -> PlayerView,
) -> Seq<PlayerView> {
    if has_player(ps, id) {
        ps.update(player_index(ps, id), f(player_of(ps, id)))
    } else {
        ps
    }
}

/// `ps` without the player with `id`.
pub open spec fn remove_player(ps: Seq<PlayerView>, id: Seq<char>) -> Seq<PlayerView> {
    if has_player(ps, id) {
        ps.remove(player_index(ps, id))
    } else {
        ps
    }
}

/// `ids` without `id`.
pub open spec fn remove_id(ids: Seq<Seq<char>>, id: Seq<char>) -> Seq<Seq<char>> {
    if ids.contains(id) {
        ids.remove(ids.index_of(id))
    } else {
        ids
    }
}

/// With unique ids, the index found for an id is the one the model names.
pub proof fn lemma_found_player(ps: Seq<PlayerView>, id: Seq<char>, i: int)
    requires
        ids_unique(ps),
        0 <= i < ps.len(),
        ps[i].id == id,
    ensures
        has_player(ps, id),
        player_index(ps, id) == i,
        player_of(ps, id) == ps[i],
{
    assert(has_player(ps, id));
    let j = player_index(ps, id);
    assert(ps[j].id == ps[i].id);
}

/// Without duplicates, the index found for an id is the one `index_of` names.
pub proof fn lemma_found_id(ids: Seq<Seq<char>>, id: Seq<char>, i: int)
    requires
        ids.no_duplicates(),
        0 <= i < ids.len(),
        ids[i] == id,
    ensures
        ids.contains(id),
        ids.index_of(id) == i,
{
    assert(ids.contains(id));
    let j = ids.index_of(id);
    assert(ids[j] == ids[i]);
}

/// Removing one entry keeps a sequence free of duplicates, and removes the
/// only occurrence of that id.
pub proof fn lemma_remove_id(ids: Seq<Seq<char>>, id: Seq<char>)
    requires
        ids.no_duplicates(),
    ensures
        remove_id(ids, id).no_duplicates(),
        !remove_id(ids, id).contains(id),
        forall|x: Seq<char>| x != id ==> (remove_id(ids, id).contains(x) <==> ids.contains(x)),
        remove_id(ids, id).len() <= ids.len(),
{
    if ids.contains(id) {
        let k = ids.index_of(id);
        let r = ids.remove(k);
        assert forall|a: int, b: int| 0 <= a < b < r.len() implies r[a] != r[b] by {
            let a0 = if a < k {
                a
            } else {
                a + 1
            };
            let b0 = if b < k {
                b
            } else {
                b + 1
            };
            assert(r[a] == ids[a0]);
            assert(r[b] == ids[b0]);
        }
        assert forall|x: Seq<char>| x != id implies (r.contains(x) <==> ids.contains(x)) by {
            if ids.contains(x) {
                let j = choose|j: int| 0 <= j < ids.len() && ids[j] == x;
                if j < k {
                    assert(r[j] == x);
                } else {
                    assert(j != k);
                    assert(r[j - 1] == x);
                }
            }
            if r.contains(x) {
                let j = choose|j: int| 0 <= j < r.len() && r[j] == x;
                if j < k {
                    assert(ids[j] == x);
                } else {
                    assert(ids[j + 1] == x);
                }
            }
        }
        if r.contains(id) {
            let j = choose|j: int| 0 <= j < r.len() && r[j] == id;
            if j < k {
                assert(ids[j] == ids[k]);
            } else {
                assert(ids[j + 1] == ids[k]);
            }
        }
    }
}

/// Removing a player keeps the ids unique, and leaves no player with that id.
pub proof fn lemma_remove_player(ps: Seq<PlayerView>, id: Seq<char>)
    requires
        ids_unique(ps),
    ensures
        ids_unique(remove_player(ps, id)),
        !has_player(remove_player(ps, id), id),
        forall|x: Seq<char>|
            x != id ==> (has_player(remove_player(ps, id), x) <==> has_player(ps, x)),
{
    if has_player(ps, id) {
        let k = player_index(ps, id);
        let r = ps.remove(k);
        assert forall|a: int, b: int|
            0 <= a < r.len() && 0 <= b < r.len() && #[trigger] r[a].id == #[trigger] r[b].id implies a
            == b by {
            let a0 = if a < k {
                a
            } else {
                a + 1
            };
            let b0 = if b < k {
                b
            } else {
                b + 1
            };
            assert(r[a] == ps[a0]);
            assert(r[b] == ps[b0]);
        }
        assert forall|x: Seq<char>| x != id implies (has_player(r, x) <==> has_player(ps, x)) by {
            if has_player(ps, x) {
                let j = choose|j: int| 0 <= j < ps.len() && #[trigger] ps[j].id == x;
                if j < k {
                    assert(r[j].id == x);
                } else {
                    assert(j != k);
                    assert(r[j - 1].id == x);
                }
            }
            if has_player(r, x) {
                let j = choose|j: int| 0 <= j < r.len() && #[trigger] r[j].id == x;
                if j < k {
                    assert(ps[j].id == x);
                } else {
                    assert(ps[j + 1].id == x);
                }
            }
        }
        if has_player(r, id) {
            let j = choose|j: int| 0 <= j < r.len() && #[trigger] r[j].id == id;
            if j < k {
                assert(ps[j].id == ps[k].id);
            } else {
                assert(ps[j + 1].id == ps[k].id);
            }
        }
    }
}

/// Changing a player without changing its id keeps the ids unique and the
/// set of ids the same.
pub proof fn lemma_update_player(
    ps: Seq<PlayerView>,
    id: Seq<char>,
    f: spec_fn(PlayerView) -> PlayerView,
)
    requires
        ids_unique(ps),
        forall|p: PlayerView| #[trigger] f(p).id == p.id,
    ensures
        ids_unique(update_player(ps, id, f)),
        update_player(ps, id, f).len() == ps.len(),
        forall|i: int|
            0 <= i < ps.len() ==> #[trigger] update_player(ps, id, f)[i] == if ps[i].id == id {
                f(ps[i])
            } else {
                ps[i]
            },
{
    if has_player(ps, id) {
        let k = player_index(ps, id);
        let r = update_player(ps, id, f);
        assert(f(ps[k]).id == ps[k].id);
        assert forall|i: int| 0 <= i < ps.len() implies #[trigger] r[i] == if ps[i].id == id {
            f(ps[i])
        } else {
            ps[i]
        } by {
            if ps[i].id == id {
                assert(ps[i].id == ps[k].id);
            }
        }
        assert forall|a: int, b: int|
            0 <= a < r.len() && 0 <= b < r.len() && #[trigger] r[a].id == #[trigger] r[b].id implies a
            == b by {
            assert(r[a].id == ps[a].id);
            assert(r[b].id == ps[b].id);
        }
    }
}


/// After one player was changed without changing its id, each player is
/// found as before, and the changed one as changed.
pub proof fn lemma_player_of_update(
    ps: Seq<PlayerView>,
    id: Seq<char>,
    f: spec_fn(PlayerView) -> PlayerView,
    x: Seq<char>,
)
    requires
        ids_unique(ps),
        forall|p: PlayerView| #[trigger] f(p).id == p.id,
    ensures
        has_player(update_player(ps, id, f), x) == has_player(ps, x),
        has_player(ps, x) ==> player_of(update_player(ps, id, f), x) == if x == id {
            f(player_of(ps, x))
        } else {
            player_of(ps, x)
        },
{
    lemma_update_player(ps, id, f);
    let r = update_player(ps, id, f);
    if has_player(ps, x) {
        let k = player_index(ps, x);
        assert(r[k].id == x);
        let k2 = player_index(r, x);
        assert(r[k2].id == r[k].id);
    }
    if has_player(r, x) {
        let j = choose|j: int| 0 <= j < r.len() && #[trigger] r[j].id == x;
        assert(ps[j].id == x);
    }
}

/// Replacing a player by one with the same id keeps the ids unique.
pub proof fn lemma_replace_player(ps: Seq<PlayerView>, i: int, q: PlayerView)
    requires
        ids_unique(ps),
        0 <= i < ps.len(),
        ps[i].id == q.id,
    ensures
        ids_unique(ps.update(i, q)),
        forall|x: Seq<char>| has_player(ps.update(i, q), x) <==> has_player(ps, x),
{
    let r = ps.update(i, q);
    assert forall|a: int, b: int|
        0 <= a < r.len() && 0 <= b < r.len() && #[trigger] r[a].id == #[trigger] r[b].id implies a
        == b by {
        assert(r[a].id == ps[a].id);
        assert(r[b].id == ps[b].id);
    }
    assert forall|x: Seq<char>| has_player(r, x) <==> has_player(ps, x) by {
        if has_player(ps, x) {
            let j = choose|j: int| 0 <= j < ps.len() && #[trigger] ps[j].id == x;
            assert(r[j].id == x);
        }
        if has_player(r, x) {
            let j = choose|j: int| 0 <= j < r.len() && #[trigger] r[j].id == x;
            assert(ps[j].id == x);
        }
    }
}


/// Appending an id that is not there keeps a list free of duplicates.
pub proof fn lemma_push_id(ids: Seq<Seq<char>>, id: Seq<char>)
    requires
        ids.no_duplicates(),
        !ids.contains(id),
    ensures
        ids.push(id).no_duplicates(),
        forall|x: Seq<char>| ids.push(id).contains(x) <==> (ids.contains(x) || x == id),
{
    let r = ids.push(id);
    assert forall|a: int, b: int| 0 <= a < b < r.len() implies r[a] != r[b] by {
        if b == ids.len() {
            assert(ids.contains(ids[a]));
        }
    }
    assert forall|x: Seq<char>| r.contains(x) <==> (ids.contains(x) || x == id) by {
        if ids.contains(x) {
            let j = choose|j: int| 0 <= j < ids.len() && ids[j] == x;
            assert(r[j] == x);
        }
        if x == id {
            assert(r[ids.len() as int] == x);
        }
        if r.contains(x) {
            let j = choose|j: int| 0 <= j < r.len() && r[j] == x;
            if j < ids.len() {
                assert(ids[j] == x);
            }
        }
    }
}

/// Adding a player with a new id keeps the ids unique.
pub proof fn lemma_push_player(ps: Seq<PlayerView>, q: PlayerView)
    requires
        ids_unique(ps),
        !has_player(ps, q.id),
    ensures
        ids_unique(ps.push(q)),
{
    let r = ps.push(q);
    assert forall|a: int, b: int|
        0 <= a < r.len() && 0 <= b < r.len() && #[trigger] r[a].id == #[trigger] r[b].id implies a
        == b by {
        if a < ps.len() && b == ps.len() {
            assert(ps[a].id == q.id);
        }
        if b < ps.len() && a == ps.len() {
            assert(ps[b].id == q.id);
        }
    }
}

/// Two lists that only hold ids of two disjoint lists are disjoint too.
pub proof fn lemma_disjoint_within(
    a: Seq<Seq<char>>,
    b: Seq<Seq<char>>,
    a2: Seq<Seq<char>>,
    b2: Seq<Seq<char>>,
)
    requires
        a.disjoint(b),
        forall|x: Seq<char>| a2.contains(x) ==> a.contains(x),
        forall|x: Seq<char>| b2.contains(x) ==> b.contains(x),
    ensures
        a2.disjoint(b2),
{
    assert forall|i: int, j: int| 0 <= i < a2.len() && 0 <= j < b2.len() implies a2[i] != b2[j] by {
        if a2[i] == b2[j] {
            assert(a2.contains(a2[i]));
            assert(b2.contains(b2[j]));
            let k = choose|k: int| 0 <= k < a.len() && a[k] == a2[i];
            let l = choose|l: int| 0 <= l < b.len() && b[l] == b2[j];
            assert(a[k] == b[l]);
        }
    }
}


/// A sequence whose players carry, place by place, the ids of a sequence with
/// unique ids has unique ids too.
pub proof fn lemma_same_ids(ps: Seq<PlayerView>, qs: Seq<PlayerView>)
    requires
        ids_unique(ps),
        qs.len() == ps.len(),
        forall|j: int| 0 <= j < ps.len() ==> #[trigger] qs[j].id == ps[j].id,
    ensures
        ids_unique(qs),
        forall|x: Seq<char>| has_player(qs, x) <==> has_player(ps, x),
{
    assert forall|a: int, b: int|
        0 <= a < qs.len() && 0 <= b < qs.len() && #[trigger] qs[a].id == #[trigger] qs[b].id implies a
        == b by {
        assert(ps[a].id == ps[b].id);
    }
    assert forall|x: Seq<char>| has_player(qs, x) <==> has_player(ps, x) by {
        if has_player(ps, x) {
            let j = choose|j: int| 0 <= j < ps.len() && #[trigger] ps[j].id == x;
            assert(qs[j].id == x);
        }
        if has_player(qs, x) {
            let j = choose|j: int| 0 <= j < qs.len() && #[trigger] qs[j].id == x;
            assert(ps[j].id == x);
        }
    }
}

/// The index of the player with `id`, if there is one.
pub fn find_player(players: &Vec<Player>, id: &String) -> (r: Option<usize>)
    ensures
        match r {
            Some(i) => i < players.len() && players@[i as int]@.id == id@,
            None => !has_player(players_view(players@), id@),
        },
{
    let mut i: usize = 0;
    while i < players.len()
        invariant
            i <= players.len(),
            forall|j: int| 0 <= j < i ==> players@[j]@.id != id@,
        decreases players.len() - i,
    {
        if players[i].id == *id {
            return Some(i);
        }
        i = i + 1;
    }
    proof {
        let pv = players_view(players@);
        if has_player(pv, id@) {
            let j = choose|j: int| 0 <= j < pv.len() && #[trigger] pv[j].id == id@;
            assert(players@[j]@.id == id@);
        }
    }
    None
}

/// The index of `id` in `ids`, if it is there.
pub fn find_id(ids: &Vec<String>, id: &String) -> (r: Option<usize>)
    ensures
        match r {
            Some(i) => i < ids.len() && ids@[i as int]@ == id@,
            None => !ids_view(ids@).contains(id@),
        },
{
    let mut i: usize = 0;
    while i < ids.len()
        invariant
            i <= ids.len(),
            forall|j: int| 0 <= j < i ==> ids@[j]@ != id@,
        decreases ids.len() - i,
    {
        if ids[i] == *id {
            return Some(i);
        }
        i = i + 1;
    }
    proof {
        let iv = ids_view(ids@);
        if iv.contains(id@) {
            let j = choose|j: int| 0 <= j < iv.len() && iv[j] == id@;
            assert(ids@[j]@ == id@);
        }
    }
    None
}

/// Removes `id` from a list of ids that holds no duplicates.
pub fn remove_id_from(ids: &mut Vec<String>, id: &String)
    requires
        ids_view(old(ids)@).no_duplicates(),
    ensures
        ids_view(final(ids)@) == remove_id(ids_view(old(ids)@), id@),
{
    match find_id(ids, id) {
        Some(i) => {
            proof {
                lemma_found_id(ids_view(ids@), id@, i as int);
            }
            ids.remove(i);
            assert(ids_view(ids@) =~= ids_view(old(ids)@).remove(i as int));
        },
        None => {},
    }
}

/// Removes the player with `id`, if there is one.
pub fn remove_player_from(players: &mut Vec<Player>, id: &String)
    requires
        ids_unique(players_view(old(players)@)),
    ensures
        players_view(final(players)@) == remove_player(players_view(old(players)@), id@),
{
    match find_player(players, id) {
        Some(i) => {
            proof {
                lemma_found_player(players_view(players@), id@, i as int);
            }
            players.remove(i);
            assert(players_view(players@) =~= players_view(old(players)@).remove(i as int));
        },
        None => {},
    }
}

} // verus!
