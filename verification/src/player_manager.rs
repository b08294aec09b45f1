//! A registry of players by id, outside of any lobby.
use crate::player::{Player, PlayerView};
use crate::roster::{
    find_player, has_player, ids_unique, lemma_found_player, lemma_push_player,
    lemma_remove_player, lemma_replace_player, player_of, players_view, remove_player,
    remove_player_from, update_player,
};
use crate::text::owned;
use vstd::prelude::*;

verus! {

/// The players, each id at most once.
pub struct PlayerManager {
    players: Vec<Player>,
}

impl View for PlayerManager {
    type V = Seq<PlayerView>;

    closed spec fn view(&self) -> Seq<PlayerView> {
        players_view(self.players@)
    }
}

impl PlayerManager {
    /// No id is listed twice.
    pub open spec fn wf(&self) -> bool {
        ids_unique(self@)
    }

    pub fn new() -> (m: Self)
        ensures
            m.wf(),
            m@ == Seq::<PlayerView>::empty(),
    {
        let m = PlayerManager { players: Vec::new() };
        assert(players_view(m.players@) =~= Seq::<PlayerView>::empty());
        m
    }

    /// Adds `player`; a player with the same id is replaced.
    pub fn add_player(&mut self, player: Player)
        requires
            old(self).wf(),
        ensures
            final(self).wf(),
            final(self)@ == if has_player(old(self)@, player@.id) {
                update_player(old(self)@, player@.id, |q: PlayerView| player@)
            } else {
                old(self)@.push(player@)
            },
    {
        let ghost p = player@;
        let ghost o = self@;
        let id = player.id.clone();
        match find_player(&self.players, &id) {
            Some(i) => {
                proof {
                    lemma_found_player(o, p.id, i as int);
                    lemma_replace_player(o, i as int, p);
                }
                self.players.set(i, player);
                assert(self@ =~= o.update(i as int, p));
            },
            None => {
                proof {
                    lemma_push_player(o, p);
                }
                self.players.push(player);
                assert(self@ =~= o.push(p));
            },
        }
    }

    /// Removes the player with `player_id`, if there is one.
    pub fn remove_player(&mut self, player_id: &str)
        requires
            old(self).wf(),
        ensures
            final(self).wf(),
            final(self)@ == remove_player(old(self)@, player_id@),
    {
        proof {
            lemma_remove_player(self@, player_id@);
        }
        let id = owned(player_id);
        remove_player_from(&mut self.players, &id);
    }

    /// Moves the player with `player_id`, if there is one.
    pub fn update_player_position(
        &mut self,
        player_id: &str,
        x: u32,
        y: u32,
        z: u32,
        rotation_x: u32,
        rotation_y: u32,
    )
        requires
            old(self).wf(),
        ensures
            final(self).wf(),
            final(self)@ == update_player(
                old(self)@,
                player_id@,
                |p: PlayerView| p.moved(x, y, z, rotation_x, rotation_y),
            ),
    {
        let ghost o = self@;
        let id = owned(player_id);
        match find_player(&self.players, &id) {
            Some(i) => {
                proof {
                    lemma_found_player(o, player_id@, i as int);
                    lemma_replace_player(o, i as int, o[i as int].moved(x, y, z, rotation_x, rotation_y));
                }
                let mut player = self.players[i].snapshot();
                player.update_position(x, y, z, rotation_x, rotation_y);
                self.players.set(i, player);
                assert(self@ =~= update_player(
                    o,
                    player_id@,
                    |p: PlayerView| p.moved(x, y, z, rotation_x, rotation_y),
                ));
            },
            None => {},
        }
    }

    /// Copies of all players.
    pub fn get_all_players(&self) -> (players: Vec<Player>)
        ensures
            players_view(players@) == self@,
    {
        let mut out: Vec<Player> = Vec::new();
        let mut k: usize = 0;
        while k < self.players.len()
            invariant
                k <= self.players.len(),
                players_view(out@) == players_view(self.players@).take(k as int),
            decreases self.players.len() - k,
        {
            let copy = self.players[k].snapshot();
            let ghost before = players_view(out@);
            out.push(copy);
            assert(players_view(out@) =~= before.push(copy@));
            assert(players_view(self.players@).take(k + 1) =~= players_view(self.players@).take(
                k as int,
            ).push(copy@));
            k = k + 1;
        }
        assert(players_view(self.players@).take(k as int) =~= players_view(self.players@));
        out
    }

    /// A copy of the player with `player_id`, if there is one.
    pub fn get_player(&self, player_id: &str) -> (player: Option<Player>)
        requires
            self.wf(),
        ensures
            player is Some == has_player(self@, player_id@),
            player matches Some(p) ==> p@ == player_of(self@, player_id@),
    {
        let id = owned(player_id);
        match find_player(&self.players, &id) {
            Some(i) => {
                proof {
                    lemma_found_player(self@, player_id@, i as int);
                }
                Some(self.players[i].snapshot())
            },
            None => None,
        }
    }

    /// How many players there are.
    pub fn get_player_count(&self) -> (count: usize)
        ensures
            count == self@.len(),
    {
        self.players.len()
    }
}

} // verus!
