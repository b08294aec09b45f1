//! Who receives a message: the connected players, and which lobby each
//! belongs to. Sending itself happens outside the library; a broadcast here
//! yields a [`Delivery`], the message with the players it goes to.
use crate::messages::{Delivery, ServerMessage};
use crate::roster::{
    find_id, ids_view, lemma_push_id, lemma_remove_id, remove_id, remove_id_from,
};
use crate::text::owned;
use vstd::prelude::*;

verus! {

/// The players of one lobby that messages to the lobby go to.
pub struct LobbyMembers {
    pub lobby_id: String,
    pub players: Vec<String>,
}

pub struct MessageBroadcaster {
    connections: Vec<String>,
    lobby_players: Vec<LobbyMembers>,
}

/// The mathematical model of a [`MessageBroadcaster`]: the connected players
/// and, per lobby, its members, in the order they came.
#[verifier::ext_equal]
pub struct BroadcasterView {
    pub connections: Seq<Seq<char>>,
    pub lobbies: Seq<(Seq<char>, Seq<Seq<char>>)>,
}

pub open spec fn members_view(ms: Seq<LobbyMembers>) -> Seq<(Seq<char>, Seq<Seq<char>>)> {
    ms.map_values(|m: LobbyMembers| (m.lobby_id@, ids_view(m.players@)))
}

impl View for MessageBroadcaster {
    type V = BroadcasterView;

    closed spec fn view(&self) -> BroadcasterView {
        BroadcasterView {
            connections: ids_view(self.connections@),
            lobbies: members_view(self.lobby_players@),
        }
    }
}

/// Whether `p` is neither excluded nor disconnected.
pub open spec fn reachable(connections: Seq<Seq<char>>, exclude: Option<Seq<char>>) -> spec_fn(
    Seq<char>,
) -> bool {
    |p: Seq<char>| exclude != Some(p) && connections.contains(p)
}

impl BroadcasterView {
    /// Connected players are listed once, lobbies are listed once, and each
    /// lobby lists a member once.
    pub open spec fn wf(self) -> bool {
        &&& self.connections.no_duplicates()
        &&& forall|i: int, j: int|
            0 <= i < self.lobbies.len() && 0 <= j < self.lobbies.len() && #[trigger] self.lobbies[i].0
                == #[trigger] self.lobbies[j].0 ==> i == j
        &&& forall|i: int| 0 <= i < self.lobbies.len() ==> (#[trigger] self.lobbies[i]).1.no_duplicates()
    }

    pub open spec fn has_lobby(self, lobby: Seq<char>) -> bool {
        exists|i: int| 0 <= i < self.lobbies.len() && #[trigger] self.lobbies[i].0 == lobby
    }

    pub open spec fn lobby_index(self, lobby: Seq<char>) -> int {
        choose|i: int| 0 <= i < self.lobbies.len() && #[trigger] self.lobbies[i].0 == lobby
    }

    /// The members of `lobby`, none when it has none.
    pub open spec fn members(self, lobby: Seq<char>) -> Seq<Seq<char>> {
        if self.has_lobby(lobby) {
            self.lobbies[self.lobby_index(lobby)].1
        } else {
            Seq::empty()
        }
    }

    /// The connected members of `lobby`, but `exclude`.
    pub open spec fn lobby_recipients(self, lobby: Seq<char>, exclude: Option<Seq<char>>) -> Seq<
        Seq<char>,
    > {
        self.members(lobby).filter(reachable(self.connections, exclude))
    }

    /// The connected players, but `exclude`.
    pub open spec fn all_recipients(self, exclude: Option<Seq<char>>) -> Seq<Seq<char>> {
        self.connections.filter(|p: Seq<char>| exclude != Some(p))
    }

    /// `player` if connected.
    pub open spec fn player_recipients(self, player: Seq<char>) -> Seq<Seq<char>> {
        if self.connections.contains(player) {
            seq![player]
        } else {
            Seq::empty()
        }
    }

    pub open spec fn connected(self, player: Seq<char>) -> BroadcasterView {
        if self.connections.contains(player) {
            self
        } else {
            BroadcasterView { connections: self.connections.push(player), ..self }
        }
    }

    pub open spec fn disconnected(self, player: Seq<char>) -> BroadcasterView {
        BroadcasterView { connections: remove_id(self.connections, player), ..self }
    }

    pub open spec fn joined(self, lobby: Seq<char>, player: Seq<char>) -> BroadcasterView {
        if self.has_lobby(lobby) {
            let i = self.lobby_index(lobby);
            let ms = self.lobbies[i].1;
            BroadcasterView {
                lobbies: self.lobbies.update(
                    i,
                    (
                        lobby,
                        if ms.contains(player) {
                            ms
                        } else {
                            ms.push(player)
                        },
                    ),
                ),
                ..self
            }
        } else {
            BroadcasterView { lobbies: self.lobbies.push((lobby, seq![player])), ..self }
        }
    }

    /// `player` leaves `lobby`; a lobby left without members is forgotten.
    pub open spec fn left(self, lobby: Seq<char>, player: Seq<char>) -> BroadcasterView {
        if self.has_lobby(lobby) {
            let i = self.lobby_index(lobby);
            let ms = remove_id(self.lobbies[i].1, player);
            BroadcasterView {
                lobbies: if ms.len() == 0 {
                    self.lobbies.remove(i)
                } else {
                    self.lobbies.update(i, (lobby, ms))
                },
                ..self
            }
        } else {
            self
        }
    }
}

impl MessageBroadcaster {
    pub open spec fn wf(&self) -> bool {
        self@.wf()
    }

    pub fn new() -> (b: Self)
        ensures
            b@.connections == Seq::<Seq<char>>::empty(),
            b@.lobbies == Seq::<(Seq<char>, Seq<Seq<char>>)>::empty(),
            b.wf(),
    {
        let b = MessageBroadcaster { connections: Vec::new(), lobby_players: Vec::new() };
        assert(b@.connections =~= Seq::<Seq<char>>::empty());
        assert(b@.lobbies =~= Seq::<(Seq<char>, Seq<Seq<char>>)>::empty());
        b
    }

    /// Registers the connection of `player_id`.
    pub fn add_connection(&mut self, player_id: String)
        requires
            old(self).wf(),
        ensures
            final(self).wf(),
            final(self)@ == old(self)@.connected(player_id@),
    {
        let ghost o = self@;
        match find_id(&self.connections, &player_id) {
            Some(i) => {
                assert(o.connections[i as int] == player_id@);
            },
            None => {
                proof {
                    lemma_push_id(o.connections, player_id@);
                }
                self.connections.push(player_id);
                assert(self@ =~= o.connected(player_id@));
            },
        }
    }

    /// Forgets the connection of `player_id`.
    pub fn remove_connection(&mut self, player_id: &str)
        requires
            old(self).wf(),
        ensures
            final(self).wf(),
            final(self)@ == old(self)@.disconnected(player_id@),
    {
        let ghost o = self@;
        let id = owned(player_id);
        remove_id_from(&mut self.connections, &id);
        proof {
            lemma_remove_id(o.connections, id@);
        }
        assert(self@ =~= o.disconnected(player_id@));
    }

    fn find_lobby(&self, lobby_id: &String) -> (r: Option<usize>)
        requires
            self.wf(),
        ensures
            match r {
                Some(i) => {
                    &&& i < self.lobby_players.len()
                    &&& self@.has_lobby(lobby_id@)
                    &&& self@.lobby_index(lobby_id@) == i
                },
                None => !self@.has_lobby(lobby_id@),
            },
    {
        let mut i: usize = 0;
        while i < self.lobby_players.len()
            invariant
                self.wf(),
                i <= self.lobby_players.len(),
                forall|j: int| 0 <= j < i ==> self@.lobbies[j].0 != lobby_id@,
            decreases self.lobby_players.len() - i,
        {
            if self.lobby_players[i].lobby_id == *lobby_id {
                proof {
                    assert(self@.lobbies[i as int] == (self.lobby_players@[i as int].lobby_id@, ids_view(self.lobby_players@[i as int].players@)));
                    assert(self@.lobbies[i as int].0 == lobby_id@);
                    assert(self@.has_lobby(lobby_id@));
                    let k = self@.lobby_index(lobby_id@);
                    assert(self@.lobbies[k].0 == self@.lobbies[i as int].0);
                }
                return Some(i);
            }
            i = i + 1;
        }
        proof {
            if self@.has_lobby(lobby_id@) {
                let k = choose|k: int| 0 <= k < self@.lobbies.len() && #[trigger] self@.lobbies[k].0 == lobby_id@;
                assert(self@.lobbies[k].0 == lobby_id@);
            }
        }
        None
    }

    /// Makes `player_id` a member of `lobby_id`.
    pub fn add_player_to_lobby(&mut self, lobby_id: &str, player_id: &str)
        requires
            old(self).wf(),
        ensures
            final(self).wf(),
            final(self)@ == old(self)@.joined(lobby_id@, player_id@),
    {
        let ghost o = self@;
        let lobby = owned(lobby_id);
        let player = owned(player_id);
        match self.find_lobby(&lobby) {
            Some(i) => {
                assert(o.lobbies[i as int].1 == ids_view(self.lobby_players@[i as int].players@));
                let found = find_id(&self.lobby_players[i].players, &player);
                proof {
                    if let Some(j) = found {
                        assert(o.lobbies[i as int].1[j as int] == player_id@);
                    }
                }
                let present = found.is_some();
                if !present {
                    proof {
                        lemma_push_id(o.lobbies[i as int].1, player@);
                    }
                    self.lobby_players[i].players.push(player);
                    assert(ids_view(self.lobby_players@[i as int].players@) =~= o.lobbies[i as int].1.push(player_id@));
                    assert(self@.lobbies =~= o.lobbies.update(i as int, (lobby_id@, o.lobbies[i as int].1.push(player_id@))));
                } else {
                    assert(self@.lobbies =~= o.lobbies.update(i as int, (lobby_id@, o.lobbies[i as int].1)));
                }
                assert(self@.connections == o.connections);
                proof {
                    let l = self@.lobbies;
                    assert forall|a: int, b: int| 0 <= a < l.len() && 0 <= b < l.len() && #[trigger] l[a].0 == #[trigger] l[b].0 implies a == b by {
                        assert(l[a].0 == o.lobbies[a].0);
                        assert(l[b].0 == o.lobbies[b].0);
                    }
                }
            },
            None => {
                let mut members: Vec<String> = Vec::new();
                members.push(player);
                assert(ids_view(members@) =~= seq![player_id@]);
                self.lobby_players.push(LobbyMembers { lobby_id: lobby, players: members });
                assert(self@.lobbies =~= o.lobbies.push((lobby_id@, seq![player_id@])));
                proof {
                    let l = self@.lobbies;
                    assert forall|a: int, b: int| 0 <= a < l.len() && 0 <= b < l.len() && #[trigger] l[a].0 == #[trigger] l[b].0 implies a == b by {
                        if a < o.lobbies.len() && b == o.lobbies.len() {
                            assert(o.lobbies[a].0 == lobby_id@);
                        }
                        if b < o.lobbies.len() && a == o.lobbies.len() {
                            assert(o.lobbies[b].0 == lobby_id@);
                        }
                    }
                }
            },
        }
        assert(self@ =~= o.joined(lobby_id@, player_id@));
    }

    /// Removes `player_id` from `lobby_id`; a lobby left empty is forgotten.
    pub fn remove_player_from_lobby(&mut self, lobby_id: &str, player_id: &str)
        requires
            old(self).wf(),
        ensures
            final(self).wf(),
            final(self)@ == old(self)@.left(lobby_id@, player_id@),
    {
        let ghost o = self@;
        let lobby = owned(lobby_id);
        let player = owned(player_id);
        match self.find_lobby(&lobby) {
            Some(i) => {
                proof {
                    lemma_remove_id(o.lobbies[i as int].1, player@);
                }
                remove_id_from(&mut self.lobby_players[i].players, &player);
                let ghost ms = remove_id(o.lobbies[i as int].1, player@);
                assert(self@.lobbies =~= o.lobbies.update(i as int, (lobby_id@, ms)));
                if self.lobby_players[i].players.len() == 0 {
                    self.lobby_players.remove(i);
                    assert(self@.lobbies =~= o.lobbies.remove(i as int));
                    proof {
                        let l = self@.lobbies;
                        assert forall|a: int, b: int| 0 <= a < l.len() && 0 <= b < l.len() && #[trigger] l[a].0 == #[trigger] l[b].0 implies a == b by {
                            let a0 = if a < i { a } else { a + 1 };
                            let b0 = if b < i { b } else { b + 1 };
                            assert(l[a] == o.lobbies[a0]);
                            assert(l[b] == o.lobbies[b0]);
                        }
                        assert forall|a: int| 0 <= a < l.len() implies (#[trigger] l[a]).1.no_duplicates() by {
                            let a0 = if a < i { a } else { a + 1 };
                            assert(l[a] == o.lobbies[a0]);
                        }
                    }
                } else {
                    proof {
                        let l = self@.lobbies;
                        assert forall|a: int, b: int| 0 <= a < l.len() && 0 <= b < l.len() && #[trigger] l[a].0 == #[trigger] l[b].0 implies a == b by {
                            assert(l[a].0 == o.lobbies[a].0);
                            assert(l[b].0 == o.lobbies[b].0);
                        }
                    }
                }
            },
            None => {},
        }
        assert(self@ =~= o.left(lobby_id@, player_id@));
    }

    /// `message` for every connected member of `lobby_id` but `exclude_id`.
    pub fn broadcast_to_lobby(&self, lobby_id: &str, message: ServerMessage, exclude_id: Option<&str>) -> (d: Delivery)
        requires
            self.wf(),
        ensures
            d@.recipients == self@.lobby_recipients(lobby_id@, crate::lobby::opt_str(exclude_id)),
            d.message == message,
    {
        let lobby = owned(lobby_id);
        let mut recipients: Vec<String> = Vec::new();
        match self.find_lobby(&lobby) {
            Some(i) => {
                let members = &self.lobby_players[i].players;
                let ghost ms = ids_view(members@);
                let ghost keep = reachable(self@.connections, crate::lobby::opt_str(exclude_id));
                assert(ms.take(0) =~= Seq::<Seq<char>>::empty());
                assert(ids_view(recipients@) =~= ms.take(0).filter(keep));
                let mut k: usize = 0;
                while k < members.len()
                    invariant
                        ms == ids_view(members@),
                        self.wf(),
                        keep == reachable(self@.connections, crate::lobby::opt_str(exclude_id)),
                        k <= members.len(),
                        ids_view(recipients@) == ms.take(k as int).filter(keep),
                    decreases members.len() - k,
                {
                    let p = &members[k];
                    let excluded = match exclude_id {
                        Some(e) => crate::text::same_text(e, p.as_str()),
                        None => false,
                    };
                    let conn = find_id(&self.connections, p);
                    proof {
                        if let Some(j) = conn {
                            assert(self@.connections[j as int] == p@);
                        }
                    }
                    let connected = conn.is_some();
                    assert(ms[k as int] == p@);
                    assert(ms.take(k + 1) =~= ms.take(k as int).push(ms[k as int]));
                    proof {
                        ms.take(k as int).lemma_filter_push(ms[k as int], keep);
                    }
                    if !excluded && connected {
                        recipients.push(p.clone());
                    }
                    assert(ids_view(recipients@) =~= ms.take(k + 1).filter(keep));
                    k = k + 1;
                }
                assert(ms.take(members.len() as int) =~= ms);
            },
            None => {
                proof {
                    reveal(Seq::filter);
                }
                assert(ids_view(recipients@) =~= Seq::<Seq<char>>::empty().filter(
                    reachable(self@.connections, crate::lobby::opt_str(exclude_id)),
                ));
            },
        }
        Delivery { recipients, message }
    }

    /// `message` for every connected player but `exclude_id`.
    pub fn broadcast_message(&self, message: ServerMessage, exclude_id: Option<&str>) -> (d: Delivery)
        requires
            self.wf(),
        ensures
            d@.recipients == self@.all_recipients(crate::lobby::opt_str(exclude_id)),
            d.message == message,
    {
        let ghost cs = self@.connections;
        let ghost keep = |p: Seq<char>| crate::lobby::opt_str(exclude_id) != Some(p);
        let mut recipients: Vec<String> = Vec::new();
        assert(cs.take(0) =~= Seq::<Seq<char>>::empty());
        assert(ids_view(recipients@) =~= cs.take(0).filter(keep));
        let mut k: usize = 0;
        while k < self.connections.len()
            invariant
                cs == self@.connections,
                cs == ids_view(self.connections@),
                keep == (|p: Seq<char>| crate::lobby::opt_str(exclude_id) != Some(p)),
                k <= self.connections.len(),
                ids_view(recipients@) == cs.take(k as int).filter(keep),
            decreases self.connections.len() - k,
        {
            let p = &self.connections[k];
            let excluded = match exclude_id {
                Some(e) => crate::text::same_text(e, p.as_str()),
                None => false,
            };
            assert(cs.take(k + 1) =~= cs.take(k as int).push(cs[k as int]));
            proof {
                cs.take(k as int).lemma_filter_push(cs[k as int], keep);
            }
            if !excluded {
                recipients.push(p.clone());
            }
            assert(ids_view(recipients@) =~= cs.take(k + 1).filter(keep));
            k = k + 1;
        }
        assert(cs.take(self.connections.len() as int) =~= cs);
        Delivery { recipients, message }
    }

    /// `message` for `player_id`, if connected.
    pub fn send_to_player(&self, player_id: &str, message: ServerMessage) -> (d: Delivery)
        requires
            self.wf(),
        ensures
            d@.recipients == self@.player_recipients(player_id@),
            d.message == message,
    {
        let id = owned(player_id);
        let mut recipients: Vec<String> = Vec::new();
        let conn = find_id(&self.connections, &id);
        proof {
            if let Some(j) = conn {
                assert(self@.connections[j as int] == id@);
            }
        }
        if conn.is_some() {
            recipients.push(id);
            assert(ids_view(recipients@) =~= seq![player_id@]);
        } else {
            assert(ids_view(recipients@) =~= Seq::<Seq<char>>::empty());
        }
        Delivery { recipients, message }
    }
}

} // verus!
