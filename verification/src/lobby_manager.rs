//! All lobbies of the server: the one deathmatch lobby, the team-selection
//! lobby that fills up before a team game, and the team games themselves.
use crate::ids;
use crate::lobby::{
    GameMode, GameState, Lobby, LobbyView, RoundEndReason, TeamColor, ROUND_TIMER_SECS,
};
use crate::announcements::{money_updates, push_money_updates, push_respawn_notices, respawn_notices};
use crate::message_broadcaster::{BroadcasterView, MessageBroadcaster};
use crate::messages::{deliveries_view, Delivery, DeliveryView, MessageView, ScoreboardPlayer, ServerMessage};
use crate::player::{Player, PlayerView};
use crate::roster::{has_player, player_of, players_view, update_player};
use crate::text::{owned, same_text};
use vstd::prelude::*;

verus! {

/// Players a team-selection lobby takes before a new one is opened.
pub const SELECTION_LOBBY_CAPACITY: usize = 10;

/// Seconds of build phase announced at the start of a round.
pub const BUY_TIME_SECS: i32 = 30;

pub struct LobbyManager {
    pub lobbies: Vec<Lobby>,
    pub deathmatch_lobby_id: Option<String>,
    pub team_selection_lobby_id: Option<String>,
}

/// The mathematical model of a [`LobbyManager`].
#[verifier::ext_equal]
pub struct ManagerView {
    pub lobbies: Seq<LobbyView>,
    pub deathmatch_lobby_id: Option<Seq<char>>,
    pub team_selection_lobby_id: Option<Seq<char>>,
}

pub open spec fn lobbies_view(ls: Seq<Lobby>) -> Seq<LobbyView> {
    ls.map_values(|l: Lobby| l@)
}

impl View for LobbyManager {
    type V = ManagerView;

    open spec fn view(&self) -> ManagerView {
        ManagerView {
            lobbies: lobbies_view(self.lobbies@),
            deathmatch_lobby_id: crate::player::opt_text(self.deathmatch_lobby_id),
            team_selection_lobby_id: crate::player::opt_text(self.team_selection_lobby_id),
        }
    }
}

/// The scoreboard of the lobby `id`: a row per player, most kills first;
/// none when there is no such lobby.
pub open spec fn scoreboard_rows(m: ManagerView, id: Seq<char>) -> Seq<crate::messages::ScoreboardView> {
    if m.has(id) {
        crate::lobby::ranked(
            m.lobby(id).players.map_values(|p: PlayerView| crate::lobby::scoreboard_entry(p, None)),
        )
    } else {
        Seq::empty()
    }
}

/// No two lobbies share an id.
pub open spec fn lobby_ids_unique(ls: Seq<LobbyView>) -> bool {
    forall|i: int, j: int|
        0 <= i < ls.len() && 0 <= j < ls.len() && #[trigger] ls[i].id == #[trigger] ls[j].id ==> i
            == j
}

pub open spec fn has_lobby(ls: Seq<LobbyView>, id: Seq<char>) -> bool {
    exists|i: int| 0 <= i < ls.len() && #[trigger] ls[i].id == id
}

pub open spec fn lobby_index(ls: Seq<LobbyView>, id: Seq<char>) -> int {
    choose|i: int| 0 <= i < ls.len() && #[trigger] ls[i].id == id
}

/// The damage a hit does.
pub const HIT_DAMAGE: i32 = 50;

pub open spec fn lobby_counters_fit(l: LobbyView) -> bool {
    &&& l.orange_score < i32::MAX
    &&& l.red_score < i32::MAX
    &&& l.round_number < i32::MAX
    &&& forall|j: int|
        0 <= j < l.players.len() ==> (#[trigger] l.players[j]).kills < i32::MAX && l.players[j].health
            >= i32::MIN + HIT_DAMAGE
}

impl ManagerView {
    /// Lobby ids are unique and every lobby keeps its own invariant.
    pub open spec fn wf(self) -> bool {
        &&& lobby_ids_unique(self.lobbies)
        &&& forall|i: int| 0 <= i < self.lobbies.len() ==> (#[trigger] self.lobbies[i]).wf()
    }

    pub open spec fn has(self, id: Seq<char>) -> bool {
        has_lobby(self.lobbies, id)
    }

    /// The lobby with `id` (meaningful when there is one).
    pub open spec fn lobby(self, id: Seq<char>) -> LobbyView {
        self.lobbies[lobby_index(self.lobbies, id)]
    }

    /// The manager with the lobby `id`, if there is one, replaced by `l`.
    pub open spec fn with_lobby(self, id: Seq<char>, l: LobbyView) -> ManagerView {
        if self.has(id) {
            ManagerView { lobbies: self.lobbies.update(lobby_index(self.lobbies, id), l), ..self }
        } else {
            self
        }
    }

    /// The manager with `l` added; a lobby with the same id is replaced.
    pub open spec fn inserted(self, l: LobbyView) -> ManagerView {
        if self.has(l.id) {
            self.with_lobby(l.id, l)
        } else {
            ManagerView { lobbies: self.lobbies.push(l), ..self }
        }
    }

    /// Whether every counter that a message can advance still has room: the
    /// scores, the round numbers and the kills stay below `i32::MAX`, and the
    /// health of every player is far enough above `i32::MIN` for a hit.
    pub open spec fn counters_fit(self) -> bool {
        forall|i: int|
            0 <= i < self.lobbies.len() ==> #[trigger] lobby_counters_fit(self.lobbies[i])
    }

    /// Whether every score still has room for one more point.
    pub open spec fn scores_fit(self) -> bool {
        forall|i: int|
            0 <= i < self.lobbies.len() ==> (#[trigger] self.lobbies[i]).orange_score < i32::MAX
                && self.lobbies[i].red_score < i32::MAX
    }

    /// Whether every round number still has room for one more round.
    pub open spec fn round_numbers_fit(self) -> bool {
        forall|i: int| 0 <= i < self.lobbies.len() ==> (#[trigger] self.lobbies[i]).round_number < i32::MAX
    }

    /// Every shield is an `i32`, as it is in a [`LobbyManager`].
    pub open spec fn shields_fit(self) -> bool {
        forall|i: int, j: int|
            0 <= i < self.lobbies.len() && 0 <= j < self.lobbies[i].players.len()
                ==> #[trigger] self.lobbies[i].players[j].shield <= i32::MAX
    }

    /// Whether the current team-selection lobby still takes players.
    pub open spec fn selection_open(self) -> bool {
        &&& self.team_selection_lobby_id is Some
        &&& self.has(self.team_selection_lobby_id.unwrap())
        &&& self.lobby(self.team_selection_lobby_id.unwrap()).players.len() < SELECTION_LOBBY_CAPACITY
        &&& !self.lobby(self.team_selection_lobby_id.unwrap()).game_started
    }

    /// Whether a lobby survives a clean-up: the deathmatch lobby, any lobby
    /// that is not a team game, and any team game with players.
    pub open spec fn keeps(self, l: LobbyView) -> bool {
        Some(l.id) == self.deathmatch_lobby_id || l.game_mode != GameMode::TeamVsTeam
            || l.players.len() > 0
    }

    /// The lobby `id` after `player` left it; an empty team lobby is closed.
    pub open spec fn after_leaving(self, id: Seq<char>, player: Seq<char>) -> ManagerView {
        if !self.has(id) {
            self
        } else {
            let l = self.lobby(id).without_player(player);
            if l.game_mode == GameMode::TeamVsTeam && l.players.len() == 0 {
                ManagerView { lobbies: self.lobbies.remove(lobby_index(self.lobbies, id)), ..self }
            } else {
                self.with_lobby(id, l)
            }
        }
    }
}

/// Replacing a lobby by one with the same id that keeps its invariant keeps
/// the manager's invariant, and is the manager's `with_lobby`.
pub proof fn lemma_lobby_replaced(old: ManagerView, new: ManagerView, id: Seq<char>, i: int)
    requires
        old.wf(),
        0 <= i < old.lobbies.len(),
        old.lobbies[i].id == id,
        new.lobbies == old.lobbies.update(i, new.lobbies[i]),
        new.lobbies[i].id == id,
        new.lobbies[i].wf(),
        new.deathmatch_lobby_id == old.deathmatch_lobby_id,
        new.team_selection_lobby_id == old.team_selection_lobby_id,
    ensures
        new.wf(),
        old.has(id),
        lobby_index(old.lobbies, id) == i,
        old.lobby(id) == old.lobbies[i],
        new.has(id),
        lobby_index(new.lobbies, id) == i,
        new.lobby(id) == new.lobbies[i],
        new == old.with_lobby(id, new.lobbies[i]),
{
    assert(old.has(id));
    let k = lobby_index(old.lobbies, id);
    assert(old.lobbies[k].id == old.lobbies[i].id);
    let n = new.lobbies;
    assert forall|a: int, b: int|
        0 <= a < n.len() && 0 <= b < n.len() && #[trigger] n[a].id == #[trigger] n[b].id implies a
        == b by {
        assert(n[a].id == old.lobbies[a].id);
        assert(n[b].id == old.lobbies[b].id);
    }
    assert forall|a: int| 0 <= a < n.len() implies (#[trigger] n[a]).wf() by {
        if a != i {
            assert(n[a] == old.lobbies[a]);
        }
    }
    assert(new.has(id));
    let k2 = lobby_index(new.lobbies, id);
    assert(n[k2].id == n[i].id);
    assert(new =~= old.with_lobby(id, new.lobbies[i]));
}

/// Replacing the lobby `id` by `l`, which keeps its id, leaves `l` to be
/// found under `id`.
pub proof fn lemma_with_lobby_lookup(m: ManagerView, id: Seq<char>, l: LobbyView)
    requires
        lobby_ids_unique(m.lobbies),
        m.has(id),
        l.id == id,
    ensures
        lobby_ids_unique(m.with_lobby(id, l).lobbies),
        m.with_lobby(id, l).has(id),
        m.with_lobby(id, l).lobby(id) == l,
        m.with_lobby(id, l).deathmatch_lobby_id == m.deathmatch_lobby_id,
        m.with_lobby(id, l).team_selection_lobby_id == m.team_selection_lobby_id,
{
    let i = lobby_index(m.lobbies, id);
    let n = m.with_lobby(id, l);
    assert(n.lobbies[i].id == id);
    assert(n.has(id));
    let k = lobby_index(n.lobbies, id);
    if k != i {
        assert(n.lobbies[k] == m.lobbies[k]);
        assert(m.lobbies[k].id == m.lobbies[i].id);
    }
    let n2 = m.with_lobby(id, l).lobbies;
    assert forall|a: int, b: int|
        0 <= a < n2.len() && 0 <= b < n2.len() && #[trigger] n2[a].id == #[trigger] n2[b].id implies a
        == b by {
        assert(n2[a].id == m.lobbies[a].id);
        assert(n2[b].id == m.lobbies[b].id);
    }
}

/// Replacing the lobby `id` twice is replacing it by the second lobby.
pub proof fn lemma_with_lobby_twice(m: ManagerView, id: Seq<char>, a: LobbyView, b: LobbyView)
    requires
        m.wf(),
        m.has(id),
        a.id == id,
    ensures
        m.with_lobby(id, a).with_lobby(id, b) == m.with_lobby(id, b),
{
    let i = lobby_index(m.lobbies, id);
    let m2 = m.with_lobby(id, a);
    lemma_with_lobby_lookup(m, id, a);
    let k = lobby_index(m2.lobbies, id);
    if k != i {
        assert(m2.lobbies[k] == m.lobbies[k]);
        assert(m.lobbies[k].id == m.lobbies[i].id);
    }
    assert(m2.with_lobby(id, b) =~= m.with_lobby(id, b));
}

/// The lobby `id` of a manager that keeps its invariant keeps its own.
pub proof fn lemma_lobby_wf(m: ManagerView, id: Seq<char>)
    requires
        m.wf(),
        m.has(id),
    ensures
        m.lobby(id).wf(),
        m.lobby(id).id == id,
{
    let i = lobby_index(m.lobbies, id);
    assert(m.lobbies[i].wf());
}

/// Where the counters of the lobby `id` have room, each of its players can
/// take a hit and score a kill.
pub proof fn lemma_counters_lobby(m: ManagerView, id: Seq<char>, player: Seq<char>)
    requires
        lobby_counters_fit(m.lobby(id)),
        m.shields_fit(),
        m.has(id),
    ensures
        has_player(m.lobby(id).players, player) ==> {
            &&& player_of(m.lobby(id).players, player).hit_fits(HIT_DAMAGE as int)
            &&& player_of(m.lobby(id).players, player).kills < i32::MAX
        },
{
    let i = lobby_index(m.lobbies, id);
    assert(lobby_counters_fit(m.lobbies[i]));
    let l = m.lobby(id);
    if has_player(l.players, player) {
        let j = crate::roster::player_index(l.players, player);
        assert(l.players[j].kills < i32::MAX);
        assert(m.lobbies[i].players[j].shield <= i32::MAX);
    }
}

impl LobbyManager {
    /// The shields of the model are those of the players, all `i32`.
    pub proof fn lemma_shields_fit(&self)
        ensures
            self@.shields_fit(),
    {
        assert forall|i: int, j: int|
            0 <= i < self@.lobbies.len() && 0 <= j < self@.lobbies[i].players.len()
                implies #[trigger] self@.lobbies[i].players[j].shield <= i32::MAX by {
            assert(self@.lobbies[i] == self.lobbies@[i]@);
            assert(self@.lobbies[i].players[j] == self.lobbies@[i].players@[j]@);
        }
    }
}

impl LobbyManager {
    /// The index of the lobby `id`, if there is one.
    fn find(&self, id: &String) -> (r: Option<usize>)
        requires
            self@.wf(),
        ensures
            match r {
                Some(i) => {
                    &&& i < self.lobbies.len()
                    &&& self@.has(id@)
                    &&& lobby_index(self@.lobbies, id@) == i
                    &&& self@.lobby(id@) == self@.lobbies[i as int]
                },
                None => !self@.has(id@),
            },
    {
        let mut i: usize = 0;
        while i < self.lobbies.len()
            invariant
                self@.wf(),
                i <= self.lobbies.len(),
                forall|j: int| 0 <= j < i ==> self@.lobbies[j].id != id@,
            decreases self.lobbies.len() - i,
        {
            if self.lobbies[i].id == *id {
                proof {
                    assert(self@.lobbies[i as int].id == id@);
                    assert(self@.has(id@));
                    let k = lobby_index(self@.lobbies, id@);
                    assert(self@.lobbies[k].id == self@.lobbies[i as int].id);
                }
                return Some(i);
            }
            i = i + 1;
        }
        proof {
            if self@.has(id@) {
                let k = choose|k: int| 0 <= k < self@.lobbies.len() && #[trigger] self@.lobbies[k].id == id@;
                assert(self@.lobbies[k].id == id@);
            }
        }
        None
    }

    /// Adds `lobby`, replacing a lobby with the same id.
    fn insert(&mut self, lobby: Lobby)
        requires
            old(self)@.wf(),
            lobby@.wf(),
        ensures
            final(self)@.wf(),
            final(self)@ == old(self)@.inserted(lobby@),
    {
        let ghost l = lobby@;
        let id = lobby.id.clone();
        match self.find(&id) {
            Some(i) => {
                self.lobbies.set(i, lobby);
                assert(self@.lobbies =~= old(self)@.lobbies.update(i as int, l));
                proof {
                    lemma_lobby_replaced(old(self)@, self@, id@, i as int);
                }
            },
            None => {
                self.lobbies.push(lobby);
                assert(self@.lobbies =~= old(self)@.lobbies.push(l));
                proof {
                    let n = self@.lobbies;
                    let o = old(self)@.lobbies;
                    assert forall|a: int, b: int|
                        0 <= a < n.len() && 0 <= b < n.len() && #[trigger] n[a].id == #[trigger] n[b].id implies a
                        == b by {
                        if a < o.len() && b == o.len() {
                            assert(o[a].id == l.id);
                        }
                        if b < o.len() && a == o.len() {
                            assert(o[b].id == l.id);
                        }
                    }
                    assert forall|a: int| 0 <= a < n.len() implies (#[trigger] n[a]).wf() by {
                        if a < o.len() {
                            assert(n[a] == o[a]);
                        }
                    }
                }
                assert(self@ =~= old(self)@.inserted(l));
            },
        }
    }

    /// A manager holding only a fresh deathmatch lobby.
    pub fn new() -> (m: Self)
        ensures
            m@.wf(),
            m@.lobbies.len() == 1,
            m@.deathmatch_lobby_id == Some(m@.lobbies[0].id),
            m@.lobbies[0] == LobbyView::opened(
                m@.lobbies[0].id,
                GameMode::Deathmatch,
                m@.lobbies[0].created_at,
            ),
            m@.team_selection_lobby_id is None,
    {
        let mut m = LobbyManager {
            lobbies: Vec::new(),
            deathmatch_lobby_id: None,
            team_selection_lobby_id: None,
        };
        assert(m@.lobbies =~= Seq::<LobbyView>::empty());
        m.ensure_deathmatch_lobby();
        m
    }

    /// Opens the deathmatch lobby, under a fresh id, unless there is one.
    fn ensure_deathmatch_lobby(&mut self)
        requires
            old(self)@.wf(),
        ensures
            final(self)@.wf(),
            old(self)@.deathmatch_lobby_id is Some ==> final(self)@ == old(self)@,
            old(self)@.deathmatch_lobby_id is None ==> {
                let id = final(self)@.deathmatch_lobby_id.unwrap();
                &&& final(self)@.deathmatch_lobby_id is Some
                &&& final(self)@.has(id)
                &&& final(self)@ == (ManagerView {
                    deathmatch_lobby_id: Some(id),
                    ..old(self)@.inserted(final(self)@.lobby(id))
                })
                &&& final(self)@.lobby(id) == LobbyView::opened(
                    id,
                    GameMode::Deathmatch,
                    final(self)@.lobby(id).created_at,
                )
            },
    {
        if self.deathmatch_lobby_id.is_none() {
            let lobby_id = ids::new_id();
            let lobby = Lobby::new_deathmatch(lobby_id.clone());
            let ghost l = lobby@;
            self.insert(lobby);
            self.deathmatch_lobby_id = Some(lobby_id);
            proof {
                let o = old(self)@;
                if o.has(l.id) {
                    let i = lobby_index(o.lobbies, l.id);
                    assert(self@.lobbies[i].id == l.id);
                    assert(self@.has(l.id));
                    let k = lobby_index(self@.lobbies, l.id);
                    assert(self@.lobbies[k].id == self@.lobbies[i].id);
                } else {
                    let i = o.lobbies.len() as int;
                    assert(self@.lobbies[i].id == l.id);
                    assert(self@.has(l.id));
                    let k = lobby_index(self@.lobbies, l.id);
                    assert(self@.lobbies[k].id == self@.lobbies[i].id);
                }
            }
        }
    }

    /// Opens a team-selection lobby under `lobby_id` and makes it the current
    /// one. Returns its id.
    pub fn open_team_selection_lobby(&mut self, lobby_id: String) -> (id: String)
        requires
            old(self)@.wf(),
        ensures
            final(self)@.wf(),
            id@ == lobby_id@,
            final(self)@.has(id@),
            final(self)@ == (ManagerView {
                team_selection_lobby_id: Some(id@),
                ..old(self)@.inserted(final(self)@.lobby(id@))
            }),
            final(self)@.lobby(id@) == LobbyView::opened(
                id@,
                GameMode::TeamVsTeam,
                final(self)@.lobby(id@).created_at,
            ),
    {
        let lobby = Lobby::new_team_vs_team(lobby_id.clone());
        let ghost l = lobby@;
        self.insert(lobby);
        self.team_selection_lobby_id = Some(lobby_id.clone());
        proof {
            let o = old(self)@;
            let i = if o.has(l.id) {
                lobby_index(o.lobbies, l.id)
            } else {
                o.lobbies.len() as int
            };
            assert(self@.lobbies[i] == l);
            assert(self@.has(l.id));
            let k = lobby_index(self@.lobbies, l.id);
            assert(self@.lobbies[k].id == self@.lobbies[i].id);
        }
        lobby_id
    }

    /// The current team-selection lobby while it takes players; otherwise a
    /// new one, under a fresh id. Returns its id.
    pub fn get_or_create_team_selection_lobby(&mut self) -> (id: String)
        requires
            old(self)@.wf(),
        ensures
            final(self)@.wf(),
            old(self)@.selection_open() ==> {
                &&& Some(id@) == old(self)@.team_selection_lobby_id
                &&& final(self)@ == old(self)@
            },
            !old(self)@.selection_open() ==> {
                &&& final(self)@.has(id@)
                &&& final(self)@ == (ManagerView {
                    team_selection_lobby_id: Some(id@),
                    ..old(self)@.inserted(final(self)@.lobby(id@))
                })
                &&& final(self)@.lobby(id@) == LobbyView::opened(
                    id@,
                    GameMode::TeamVsTeam,
                    final(self)@.lobby(id@).created_at,
                )
            },
    {
        if let Some(id) = &self.team_selection_lobby_id {
            match self.find(id) {
                Some(i) => {
                    if self.lobbies[i].players.len() < SELECTION_LOBBY_CAPACITY
                        && !self.lobbies[i].game_started {
                        return id.clone();
                    }
                },
                None => {},
            }
        }
        let fresh = ids::new_id();
        self.open_team_selection_lobby(fresh)
    }

    /// Opens a team game under `game_lobby_id` for the players gathered in
    /// `selection_lobby_id`, and marks the selection lobby as started so
    /// that the next group gathers elsewhere. Returns the game's id.
    pub fn create_team_game_with_id(&mut self, selection_lobby_id: &str, game_lobby_id: String) -> (id: Option<String>)
        requires
            old(self)@.wf(),
        ensures
            final(self)@.wf(),
            id matches Some(g) && g@ == game_lobby_id@,
            ({
                let added = old(self)@.inserted(LobbyView::opened(
                    game_lobby_id@,
                    GameMode::TeamVsTeam,
                    final(self)@.lobby(game_lobby_id@).created_at,
                ));
                final(self)@ == added.with_lobby(
                    selection_lobby_id@,
                    LobbyView { game_started: true, ..added.lobby(selection_lobby_id@) },
                )
            }),
    {
        let game = Lobby::new_team_vs_team(game_lobby_id.clone());
        let ghost g = game@;
        self.insert(game);
        let ghost added = self@;
        proof {
            let o = old(self)@;
            let i = if o.has(g.id) {
                lobby_index(o.lobbies, g.id)
            } else {
                o.lobbies.len() as int
            };
            assert(added.lobbies[i] == g);
            assert(added.has(g.id));
            let k = lobby_index(added.lobbies, g.id);
            assert(added.lobbies[k].id == added.lobbies[i].id);
        }
        let sel = owned(selection_lobby_id);
        match self.find(&sel) {
            Some(i) => {
                self.lobbies[i].game_started = true;
                assert(self@.lobbies =~= added.lobbies.update(i as int, self@.lobbies[i as int]));
                proof {
                    lemma_lobby_replaced(added, self@, sel@, i as int);
                    if g.id != sel@ {
                        let k = lobby_index(added.lobbies, g.id);
                        assert(k != i);
                        assert(self@.lobbies[k] == g);
                        assert(self@.has(g.id));
                        let k2 = lobby_index(self@.lobbies, g.id);
                        assert(self@.lobbies[k2].id == self@.lobbies[k].id);
                    }
                }
            },
            None => {},
        }
        Some(game_lobby_id)
    }

    /// Opens a team game, under a fresh id, for the players gathered in
    /// `selection_lobby_id`. Returns the game's id.
    pub fn create_team_game_from_selection(&mut self, selection_lobby_id: &str) -> (id: Option<String>)
        requires
            old(self)@.wf(),
        ensures
            final(self)@.wf(),
            id is Some,
            ({
                let gid = id.unwrap()@;
                let added = old(self)@.inserted(LobbyView::opened(
                    gid,
                    GameMode::TeamVsTeam,
                    final(self)@.lobby(gid).created_at,
                ));
                final(self)@ == added.with_lobby(
                    selection_lobby_id@,
                    LobbyView { game_started: true, ..added.lobby(selection_lobby_id@) },
                )
            }),
    {
        let game_lobby_id = ids::new_id();
        self.create_team_game_with_id(selection_lobby_id, game_lobby_id)
    }

    /// The id of the deathmatch lobby.
    pub fn get_deathmatch_lobby_id(&self) -> (id: String)
        requires
            self@.deathmatch_lobby_id is Some,
        ensures
            Some(id@) == self@.deathmatch_lobby_id,
    {
        match &self.deathmatch_lobby_id {
            Some(id) => id.clone(),
            None => String::new(),
        }
    }

    /// Adds `player` to the lobby `lobby_id`. Returns whether it was added.
    pub fn join_lobby(&mut self, lobby_id: &str, player: Player) -> (added: bool)
        requires
            old(self)@.wf(),
        ensures
            final(self)@.wf(),
            added == (old(self)@.has(lobby_id@) && old(self)@.lobby(lobby_id@).has_room()),
            final(self)@ == if added {
                old(self)@.with_lobby(lobby_id@, old(self)@.lobby(lobby_id@).with_player(player@))
            } else {
                old(self)@
            },
    {
        let id = owned(lobby_id);
        match self.find(&id) {
            Some(i) => {
                let added = self.lobbies[i].add_player(player);
                assert(self@.lobbies =~= old(self)@.lobbies.update(i as int, self@.lobbies[i as int]));
                proof {
                    lemma_lobby_replaced(old(self)@, self@, id@, i as int);
                }
                added
            },
            None => false,
        }
    }

    /// Removes the player `player_id` from the lobby `lobby_id`; a team lobby
    /// left empty is closed.
    pub fn leave_lobby(&mut self, lobby_id: &str, player_id: &str)
        requires
            old(self)@.wf(),
        ensures
            final(self)@.wf(),
            final(self)@ == old(self)@.after_leaving(lobby_id@, player_id@),
    {
        let id = owned(lobby_id);
        match self.find(&id) {
            Some(i) => {
                self.lobbies[i].remove_player(player_id);
                assert(self@.lobbies =~= old(self)@.lobbies.update(i as int, self@.lobbies[i as int]));
                proof {
                    lemma_lobby_replaced(old(self)@, self@, id@, i as int);
                }
                if matches!(self.lobbies[i].game_mode, GameMode::TeamVsTeam)
                    && self.lobbies[i].players.len() == 0 {
                    let ghost mid = self@;
                    self.lobbies.remove(i);
                    assert(self@.lobbies =~= old(self)@.lobbies.remove(i as int));
                    proof {
                        let n = self@.lobbies;
                        let o = old(self)@.lobbies;
                        assert forall|a: int, b: int|
                            0 <= a < n.len() && 0 <= b < n.len() && #[trigger] n[a].id == #[trigger] n[b].id implies a
                            == b by {
                            let a0 = if a < i { a } else { a + 1 };
                            let b0 = if b < i { b } else { b + 1 };
                            assert(n[a] == o[a0]);
                            assert(n[b] == o[b0]);
                        }
                        assert forall|a: int| 0 <= a < n.len() implies (#[trigger] n[a]).wf() by {
                            let a0 = if a < i { a } else { a + 1 };
                            assert(n[a] == o[a0]);
                        }
                    }
                    assert(self@ =~= old(self)@.after_leaving(lobby_id@, player_id@));
                }
            },
            None => {},
        }
    }

    /// Moves `player_id` to `team` in the lobby `lobby_id`. Returns whether
    /// the player joined the team.
    pub fn join_team(&mut self, lobby_id: &str, player_id: &str, team: TeamColor) -> (joined: bool)
        requires
            old(self)@.wf(),
        ensures
            final(self)@.wf(),
            joined == (old(self)@.has(lobby_id@) && old(self)@.lobby(lobby_id@).can_join(
                player_id@,
                team,
            )),
            final(self)@ == old(self)@.with_lobby(
                lobby_id@,
                old(self)@.lobby(lobby_id@).joined_team(player_id@, team),
            ),
    {
        let id = owned(lobby_id);
        match self.find(&id) {
            Some(i) => {
                let joined = self.lobbies[i].join_team(player_id, team);
                assert(self@.lobbies =~= old(self)@.lobbies.update(i as int, self@.lobbies[i as int]));
                proof {
                    lemma_lobby_replaced(old(self)@, self@, id@, i as int);
                }
                joined
            },
            None => false,
        }
    }

    /// Starts the game of the lobby `lobby_id`. Returns whether it started.
    pub fn start_team_game(&mut self, lobby_id: &str) -> (started: bool)
        requires
            old(self)@.wf(),
            old(self)@.has(lobby_id@) ==> old(self)@.lobby(lobby_id@).round_number < i32::MAX,
        ensures
            final(self)@.wf(),
            started == (old(self)@.has(lobby_id@) && old(self)@.lobby(lobby_id@).can_start_game()),
            final(self)@ == old(self)@.with_lobby(lobby_id@, final(self)@.lobby(lobby_id@)),
            old(self)@.has(lobby_id@) ==> final(self)@.has(lobby_id@) && exists|seed: usize|
                final(self)@.lobby(lobby_id@) == if started {
                    old(self)@.lobby(lobby_id@).started(
                        seed,
                        final(self)@.lobby(lobby_id@).build_phase_start.unwrap(),
                    )
                } else {
                    old(self)@.lobby(lobby_id@)
                },
    {
        let id = owned(lobby_id);
        match self.find(&id) {
            Some(i) => {
                let started = self.lobbies[i].start_game();
                assert(self@.lobbies =~= old(self)@.lobbies.update(i as int, self@.lobbies[i as int]));
                proof {
                    lemma_lobby_replaced(old(self)@, self@, id@, i as int);
                }
                started
            },
            None => false,
        }
    }

    /// Copies of the players of the lobby `lobby_id`, none when there is no
    /// such lobby.
    pub fn get_lobby_players(&self, lobby_id: &str) -> (players: Vec<Player>)
        requires
            self@.wf(),
        ensures
            players_view(players@) == if self@.has(lobby_id@) {
                self@.lobby(lobby_id@).players
            } else {
                Seq::empty()
            },
    {
        let id = owned(lobby_id);
        let mut out: Vec<Player> = Vec::new();
        match self.find(&id) {
            Some(i) => {
                let ps = &self.lobbies[i].players;
                let mut k: usize = 0;
                while k < ps.len()
                    invariant
                        k <= ps.len(),
                        players_view(out@) == players_view(ps@).take(k as int),
                    decreases ps.len() - k,
                {
                    let copy = ps[k].snapshot();
                    let ghost before = players_view(out@);
                    out.push(copy);
                    assert(players_view(out@) =~= before.push(ps@[k as int]@));
                    assert(players_view(ps@).take(k + 1) =~= players_view(ps@).take(k as int).push(ps@[k as int]@));
                    k = k + 1;
                }
                assert(players_view(ps@).take(ps.len() as int) =~= players_view(ps@));
            },
            None => {
                assert(players_view(out@) =~= Seq::<PlayerView>::empty());
            },
        }
        out
    }

    /// Copy of the player `player_id` of the lobby `lobby_id`, if there is one.
    pub fn get_player(&self, lobby_id: &str, player_id: &str) -> (player: Option<Player>)
        requires
            self@.wf(),
        ensures
            player is Some == (self@.has(lobby_id@) && has_player(
                self@.lobby(lobby_id@).players,
                player_id@,
            )),
            player matches Some(p) ==> p@ == player_of(self@.lobby(lobby_id@).players, player_id@),
    {
        let id = owned(lobby_id);
        let pid = owned(player_id);
        match self.find(&id) {
            Some(i) => match crate::roster::find_player(&self.lobbies[i].players, &pid) {
                Some(j) => {
                    proof {
                        crate::roster::lemma_found_player(self@.lobbies[i as int].players, pid@, j as int);
                    }
                    Some(self.lobbies[i].players[j].snapshot())
                },
                None => None,
            },
            None => None,
        }
    }

    /// The team lists of the lobby `lobby_id`, if there is one.
    pub fn get_team_data(&self, lobby_id: &str) -> (teams: Option<(Vec<(String, String)>, Vec<(String, String)>)>)
        requires
            self@.wf(),
        ensures
            teams is Some == self@.has(lobby_id@),
            teams matches Some(t) ==> {
                &&& crate::lobby::pairs_view(t.0@) == crate::lobby::team_roster(
                    self@.lobby(lobby_id@).orange_team,
                    self@.lobby(lobby_id@).players,
                )
                &&& crate::lobby::pairs_view(t.1@) == crate::lobby::team_roster(
                    self@.lobby(lobby_id@).red_team,
                    self@.lobby(lobby_id@).players,
                )
            },
    {
        let id = owned(lobby_id);
        match self.find(&id) {
            Some(i) => Some(self.lobbies[i].get_team_data()),
            None => None,
        }
    }
}


impl LobbyManager {
    pub fn update_player_position(
        &mut self,
        lobby_id: &str,
        player_id: &str,
        x: u32,
        y: u32,
        z: u32,
        rotation_x: u32,
        rotation_y: u32,
    )
        requires
            old(self)@.wf(),
        ensures
            final(self)@.wf(),
            final(self)@ == old(self)@.with_lobby(
                lobby_id@,
                LobbyView {
                    players: update_player(
                        old(self)@.lobby(lobby_id@).players,
                        player_id@,
                        |p: PlayerView| p.moved(x, y, z, rotation_x, rotation_y),
                    ),
                    ..old(self)@.lobby(lobby_id@)
                },
            ),
    {
        let id = owned(lobby_id);
        match self.find(&id) {
            Some(i) => {
                self.lobbies[i].update_player_position(player_id, x, y, z, rotation_x, rotation_y);
                assert(self@.lobbies =~= old(self)@.lobbies.update(i as int, self@.lobbies[i as int]));
                proof {
                    lemma_lobby_replaced(old(self)@, self@, id@, i as int);
                }
            },
            None => {},
        }
    }

    /// Hits the living player `player_id` of the lobby `lobby_id` for
    /// `damage`. Returns whether the hit killed, and the health and shield it
    /// left.
    pub fn damage_player(&mut self, lobby_id: &str, player_id: &str, damage: i32) -> (r: Option<(bool, i32, i32)>)
        requires
            old(self)@.wf(),
            old(self)@.has(lobby_id@) && has_player(old(self)@.lobby(lobby_id@).players, player_id@)
                ==> player_of(old(self)@.lobby(lobby_id@).players, player_id@).hit_fits(
                damage as int,
            ),
        ensures
            final(self)@.wf(),
            r is Some == (old(self)@.has(lobby_id@) && has_player(
                old(self)@.lobby(lobby_id@).players,
                player_id@,
            ) && player_of(old(self)@.lobby(lobby_id@).players, player_id@).alive),
            r is None ==> final(self)@ == old(self)@,
            r matches Some(t) ==> {
                let before = old(self)@.lobby(lobby_id@);
                let after = final(self)@.lobby(lobby_id@);
                let hit = player_of(after.players, player_id@);
                &&& final(self)@.has(lobby_id@)
                &&& hit.last_hit_time is Some
                &&& final(self)@ == old(self)@.with_lobby(lobby_id@, after)
                &&& after == (LobbyView {
                    players: update_player(
                        before.players,
                        player_id@,
                        |p: PlayerView| p.hit(damage as int, hit.last_hit_time.unwrap()),
                    ),
                    ..before
                })
                &&& t.0 == player_of(before.players, player_id@).hit_kills(damage as int)
                &&& t.1 as int == hit.health
                &&& t.2 as int == hit.shield
            },
    {
        let id = owned(lobby_id);
        match self.find(&id) {
            Some(i) => {
                let r = self.lobbies[i].damage_player(player_id, damage);
                assert(self@.lobbies =~= old(self)@.lobbies.update(i as int, self@.lobbies[i as int]));
                proof {
                    lemma_lobby_replaced(old(self)@, self@, id@, i as int);
                }
                r
            },
            None => None,
        }
    }

    /// Respawns the player `player_id` of the lobby `lobby_id` at its spawn
    /// point. Returns a copy of the respawned player.
    pub fn respawn_player(&mut self, lobby_id: &str, player_id: &str) -> (r: Option<Player>)
        requires
            old(self)@.wf(),
        ensures
            final(self)@.wf(),
            r is Some == (old(self)@.has(lobby_id@) && has_player(
                old(self)@.lobby(lobby_id@).players,
                player_id@,
            )),
            final(self)@ == old(self)@.with_lobby(
                lobby_id@,
                LobbyView {
                    players: update_player(
                        old(self)@.lobby(lobby_id@).players,
                        player_id@,
                        |p: PlayerView|
                            p.respawned(old(self)@.lobby(lobby_id@).spawn_position(player_id@)),
                    ),
                    ..old(self)@.lobby(lobby_id@)
                },
            ),
            r matches Some(p) ==> p@ == player_of(final(self)@.lobby(lobby_id@).players, player_id@),
    {
        let id = owned(lobby_id);
        match self.find(&id) {
            Some(i) => {
                let r = self.lobbies[i].respawn_player(player_id);
                assert(self@.lobbies =~= old(self)@.lobbies.update(i as int, self@.lobbies[i as int]));
                proof {
                    lemma_lobby_replaced(old(self)@, self@, id@, i as int);
                }
                r
            },
            None => None,
        }
    }

    /// Counts a kill for `player_id` in the lobby `lobby_id`. Returns whether
    /// that player was found.
    pub fn add_kill_to_player(&mut self, lobby_id: &str, player_id: &str) -> (found: bool)
        requires
            old(self)@.wf(),
            old(self)@.has(lobby_id@) && has_player(old(self)@.lobby(lobby_id@).players, player_id@)
                ==> player_of(old(self)@.lobby(lobby_id@).players, player_id@).kills < i32::MAX,
        ensures
            final(self)@.wf(),
            found == (old(self)@.has(lobby_id@) && has_player(
                old(self)@.lobby(lobby_id@).players,
                player_id@,
            )),
            final(self)@ == old(self)@.with_lobby(
                lobby_id@,
                LobbyView {
                    players: update_player(
                        old(self)@.lobby(lobby_id@).players,
                        player_id@,
                        |p: PlayerView| p.with_kill(),
                    ),
                    ..old(self)@.lobby(lobby_id@)
                },
            ),
    {
        let id = owned(lobby_id);
        match self.find(&id) {
            Some(i) => {
                let found = self.lobbies[i].add_kill_to_player(player_id);
                assert(self@.lobbies =~= old(self)@.lobbies.update(i as int, self@.lobbies[i as int]));
                proof {
                    lemma_lobby_replaced(old(self)@, self@, id@, i as int);
                }
                found
            },
            None => false,
        }
    }

    /// One step of shield regeneration in the lobby `lobby_id`, by the clock.
    /// Returns the id and new shield of each player whose shield changed.
    pub fn update_shields(&mut self, lobby_id: &str) -> (updates: Vec<(String, i32)>)
        requires
            old(self)@.wf(),
        ensures
            final(self)@.wf(),
            final(self)@ == old(self)@.with_lobby(lobby_id@, final(self)@.lobby(lobby_id@)),
            !old(self)@.has(lobby_id@) ==> updates@.len() == 0,
            old(self)@.has(lobby_id@) ==> final(self)@.has(lobby_id@) && exists|
                since: Seq<Option<u64>>,
            |
                #![trigger crate::lobby::regen_all(old(self)@.lobby(lobby_id@).players, since)]
                {
                    let before = old(self)@.lobby(lobby_id@);
                    &&& since.len() == before.players.len()
                    &&& forall|i: int|
                        0 <= i < since.len() ==> (#[trigger] since[i] is Some
                            == before.players[i].last_hit_time is Some)
                    &&& final(self)@.lobby(lobby_id@) == (LobbyView {
                        players: crate::lobby::regen_all(before.players, since),
                        ..before
                    })
                    &&& crate::lobby::shields_view(updates@) == crate::lobby::shield_updates(
                        before.players,
                        since,
                        before.players.len() as int,
                    )
                },
    {
        let id = owned(lobby_id);
        match self.find(&id) {
            Some(i) => {
                let updates = self.lobbies[i].update_shields();
                assert(self@.lobbies =~= old(self)@.lobbies.update(i as int, self@.lobbies[i as int]));
                proof {
                    lemma_lobby_replaced(old(self)@, self@, id@, i as int);
                }
                updates
            },
            None => Vec::new(),
        }
    }

    /// The scoreboard of the lobby `lobby_id`, most kills first; empty when
    /// there is no such lobby.
    pub fn get_lobby_scoreboard(&self, lobby_id: &str) -> (rows: Vec<ScoreboardPlayer>)
        requires
            self@.wf(),
        ensures
            crate::lobby::rows_view(rows@) == scoreboard_rows(self@, lobby_id@),
            crate::lobby::sorted_by_kills(crate::lobby::rows_view(rows@)),
            crate::lobby::rows_view(rows@).to_multiset() == if self@.has(lobby_id@) {
                self@.lobby(lobby_id@).players.map_values(
                    |p: PlayerView| crate::lobby::scoreboard_entry(p, None),
                ).to_multiset()
            } else {
                vstd::multiset::Multiset::empty()
            },
    {
        let id = owned(lobby_id);
        match self.find(&id) {
            Some(i) => self.lobbies[i].get_scoreboard_data(),
            None => {
                let rows: Vec<ScoreboardPlayer> = Vec::new();
                assert(crate::lobby::rows_view(rows@) =~= Seq::<crate::messages::ScoreboardView>::empty());
                proof {
                    vstd::seq_lib::to_multiset_len(crate::lobby::rows_view(rows@));
                    assert(crate::lobby::rows_view(rows@).to_multiset().len() == 0);
                }
                assert(crate::lobby::rows_view(rows@).to_multiset() =~= vstd::multiset::Multiset::empty());
                rows
            },
        }
    }

    /// Plants the bomb for `player_id` in the lobby `lobby_id`. Returns the
    /// spot (x, z).
    pub fn plant_bomb(
        &mut self,
        lobby_id: &str,
        player_id: &str,
        position_x: Option<u32>,
        position_z: Option<u32>,
    ) -> (spot: Option<(u32, u32)>)
        requires
            old(self)@.wf(),
        ensures
            final(self)@.wf(),
            spot is Some == (old(self)@.has(lobby_id@) && old(self)@.lobby(lobby_id@).can_plant(
                player_id@,
            )),
            spot is None ==> final(self)@ == old(self)@,
            spot is Some ==> {
                let before = old(self)@.lobby(lobby_id@);
                let after = final(self)@.lobby(lobby_id@);
                &&& final(self)@.has(lobby_id@)
                &&& after.bomb_plant_time is Some
                &&& spot == Some(before.plant_spot(player_id@, position_x, position_z))
                &&& after == before.planted(
                    player_id@,
                    position_x,
                    position_z,
                    after.bomb_plant_time.unwrap(),
                )
                &&& final(self)@ == old(self)@.with_lobby(lobby_id@, after)
            },
    {
        let id = owned(lobby_id);
        match self.find(&id) {
            Some(i) => {
                let r = self.lobbies[i].plant_bomb(player_id, position_x, position_z);
                assert(self@.lobbies =~= old(self)@.lobbies.update(i as int, self@.lobbies[i as int]));
                proof {
                    lemma_lobby_replaced(old(self)@, self@, id@, i as int);
                }
                r
            },
            None => None,
        }
    }

    /// Defuses the bomb in the lobby `lobby_id` for `player_id`;
    /// `within_reach` says whether the player stands close enough to it.
    /// Returns the winning team.
    pub fn defuse_bomb(&mut self, lobby_id: &str, player_id: &str, within_reach: bool) -> (winner: Option<TeamColor>)
        requires
            old(self)@.wf(),
            old(self)@.has(lobby_id@) ==> old(self)@.lobby(lobby_id@).orange_score < i32::MAX
                && old(self)@.lobby(lobby_id@).red_score < i32::MAX,
        ensures
            final(self)@.wf(),
            winner is Some == (old(self)@.has(lobby_id@) && old(self)@.lobby(lobby_id@).can_defuse(
                player_id@,
                within_reach,
            )),
            winner is None ==> final(self)@ == old(self)@,
            winner is Some ==> {
                let before = old(self)@.lobby(lobby_id@);
                let after = final(self)@.lobby(lobby_id@);
                &&& final(self)@.has(lobby_id@)
                &&& winner == Some(before.defending_team())
                &&& after == before.defused(after.round_end_time.unwrap())
                &&& final(self)@ == old(self)@.with_lobby(lobby_id@, after)
            },
    {
        let id = owned(lobby_id);
        match self.find(&id) {
            Some(i) => {
                let r = self.lobbies[i].defuse_bomb(player_id, within_reach);
                assert(self@.lobbies =~= old(self)@.lobbies.update(i as int, self@.lobbies[i as int]));
                proof {
                    lemma_lobby_replaced(old(self)@, self@, id@, i as int);
                }
                r
            },
            None => None,
        }
    }

    /// The carrier of the bomb in the lobby `lobby_id`, if any.
    pub fn get_bomb_carrier(&self, lobby_id: &str) -> (carrier: Option<String>)
        requires
            self@.wf(),
        ensures
            crate::player::opt_text(carrier) == if self@.has(lobby_id@) {
                self@.lobby(lobby_id@).bomb_carrier_id
            } else {
                None
            },
    {
        let id = owned(lobby_id);
        match self.find(&id) {
            Some(i) => match &self.lobbies[i].bomb_carrier_id {
                Some(c) => Some(c.clone()),
                None => None,
            },
            None => None,
        }
    }

    /// Whether players of the lobby `lobby_id` may respawn: always in a
    /// deathmatch; in a team game only outside of play.
    pub fn can_respawn(&self, lobby_id: &str) -> (allowed: bool)
        requires
            self@.wf(),
        ensures
            allowed == (self@.has(lobby_id@) && ({
                let l = self@.lobby(lobby_id@);
                l.game_mode == GameMode::Deathmatch || l.game_state == GameState::RoundEnd
                    || l.game_state == GameState::BuildPhase || l.game_state
                    == GameState::WaitingForPlayers
            })),
    {
        let id = owned(lobby_id);
        match self.find(&id) {
            Some(i) => {
                let l = &self.lobbies[i];
                matches!(l.game_mode, GameMode::Deathmatch) || matches!(
                    l.game_state,
                    GameState::RoundEnd | GameState::BuildPhase | GameState::WaitingForPlayers
                )
            },
            None => false,
        }
    }

    /// The team of the lobby `lobby_id` that won by elimination, if any.
    pub fn check_team_elimination(&mut self, lobby_id: &str) -> (winner: Option<TeamColor>)
        requires
            old(self)@.wf(),
        ensures
            final(self)@ == old(self)@,
            winner == if old(self)@.has(lobby_id@) {
                old(self)@.lobby(lobby_id@).elimination_winner()
            } else {
                None
            },
    {
        let id = owned(lobby_id);
        match self.find(&id) {
            Some(i) => {
                let r = self.lobbies[i].check_team_elimination();
                assert(self@.lobbies =~= old(self)@.lobbies);
                r
            },
            None => None,
        }
    }

    /// Ends the round of the lobby `lobby_id` in favour of `winner`; `reason`
    /// names why (`"Team Eliminated"`, `"Bomb Exploded"`, `"Bomb Defused"`,
    /// anything else meaning time ran out).
    pub fn end_round(&mut self, lobby_id: &str, winner: TeamColor, reason: &str)
        requires
            old(self)@.wf(),
            old(self)@.has(lobby_id@) ==> old(self)@.lobby(lobby_id@).orange_score < i32::MAX
                && old(self)@.lobby(lobby_id@).red_score < i32::MAX,
        ensures
            final(self)@.wf(),
            final(self)@ == old(self)@.with_lobby(lobby_id@, final(self)@.lobby(lobby_id@)),
            old(self)@.has(lobby_id@) ==> {
                &&& final(self)@.has(lobby_id@)
                &&& final(self)@.lobby(lobby_id@) == old(self)@.lobby(lobby_id@).round_ended(
                    winner,
                    final(self)@.lobby(lobby_id@).round_end_time.unwrap(),
                )
            },
    {
        let id = owned(lobby_id);
        match self.find(&id) {
            Some(i) => {
                let round_reason = if same_text(reason, "Team Eliminated") {
                    RoundEndReason::TeamEliminated
                } else if same_text(reason, "Bomb Exploded") {
                    RoundEndReason::BombExploded
                } else if same_text(reason, "Bomb Defused") {
                    RoundEndReason::BombDefused
                } else {
                    RoundEndReason::TimeUp
                };
                self.lobbies[i].end_round(winner, round_reason);
                assert(self@.lobbies =~= old(self)@.lobbies.update(i as int, self@.lobbies[i as int]));
                proof {
                    lemma_lobby_replaced(old(self)@, self@, id@, i as int);
                }
            },
            None => {},
        }
    }

    /// The (orange, red) scores of the lobby `lobby_id`; (0, 0) when there is
    /// no such lobby.
    pub fn get_team_scores(&self, lobby_id: &str) -> (scores: (i32, i32))
        requires
            self@.wf(),
        ensures
            scores.0 as int == if self@.has(lobby_id@) {
                self@.lobby(lobby_id@).orange_score
            } else {
                0
            },
            scores.1 as int == if self@.has(lobby_id@) {
                self@.lobby(lobby_id@).red_score
            } else {
                0
            },
    {
        let id = owned(lobby_id);
        match self.find(&id) {
            Some(i) => (self.lobbies[i].orange_score, self.lobbies[i].red_score),
            None => (0, 0),
        }
    }

    /// Starts the next round of the lobby `lobby_id`. Returns whether the
    /// sides were switched, so that the map can be reset.
    pub fn start_new_round(&mut self, lobby_id: &str) -> (switched: bool)
        requires
            old(self)@.wf(),
            old(self)@.has(lobby_id@) ==> old(self)@.lobby(lobby_id@).round_number < i32::MAX,
        ensures
            final(self)@.wf(),
            final(self)@ == old(self)@.with_lobby(lobby_id@, final(self)@.lobby(lobby_id@)),
            switched == (old(self)@.has(lobby_id@) && old(self)@.lobby(
                lobby_id@,
            ).next_round_switches()),
            old(self)@.has(lobby_id@) ==> {
                &&& final(self)@.has(lobby_id@)
                &&& final(self)@.lobby(lobby_id@).build_phase_start is Some
                &&& exists|seed: usize|
                    final(self)@.lobby(lobby_id@) == old(self)@.lobby(lobby_id@).next_round(
                        seed,
                        final(self)@.lobby(lobby_id@).build_phase_start.unwrap(),
                    )
            },
    {
        let id = owned(lobby_id);
        match self.find(&id) {
            Some(i) => {
                let switched = self.lobbies[i].start_new_round();
                assert(self@.lobbies =~= old(self)@.lobbies.update(i as int, self@.lobbies[i as int]));
                proof {
                    lemma_lobby_replaced(old(self)@, self@, id@, i as int);
                }
                switched
            },
            None => false,
        }
    }

    /// The round number of the lobby `lobby_id`; 0 when there is no such lobby.
    pub fn get_round_number(&self, lobby_id: &str) -> (round: i32)
        requires
            self@.wf(),
        ensures
            round as int == if self@.has(lobby_id@) {
                self@.lobby(lobby_id@).round_number
            } else {
                0
            },
    {
        let id = owned(lobby_id);
        match self.find(&id) {
            Some(i) => self.lobbies[i].round_number,
            None => 0,
        }
    }

    /// Drops the bomb where its carrier `player_id` stands, in the lobby
    /// `lobby_id`. Returns the spot.
    pub fn drop_bomb(&mut self, lobby_id: &str, player_id: &str) -> (spot: Option<(u32, u32, u32)>)
        requires
            old(self)@.wf(),
        ensures
            final(self)@.wf(),
            spot == if old(self)@.has(lobby_id@) && old(self)@.lobby(lobby_id@).can_drop(player_id@) {
                Some(old(self)@.lobby(lobby_id@).drop_spot(player_id@))
            } else {
                None
            },
            final(self)@ == if old(self)@.has(lobby_id@) && old(self)@.lobby(lobby_id@).can_drop(
                player_id@,
            ) {
                old(self)@.with_lobby(lobby_id@, old(self)@.lobby(lobby_id@).dropped(player_id@))
            } else {
                old(self)@
            },
    {
        let id = owned(lobby_id);
        match self.find(&id) {
            Some(i) => {
                let r = self.lobbies[i].drop_bomb(player_id);
                assert(self@.lobbies =~= old(self)@.lobbies.update(i as int, self@.lobbies[i as int]));
                proof {
                    lemma_lobby_replaced(old(self)@, self@, id@, i as int);
                }
                r
            },
            None => None,
        }
    }

    /// Gives the dropped bomb to `player_id` in the lobby `lobby_id`;
    /// `within_reach` says whether the player stands close enough to it.
    /// Returns the name of the player who picked it up.
    pub fn pickup_bomb(&mut self, lobby_id: &str, player_id: &str, within_reach: bool) -> (name: Option<String>)
        requires
            old(self)@.wf(),
        ensures
            final(self)@.wf(),
            name is Some == (old(self)@.has(lobby_id@) && old(self)@.lobby(lobby_id@).can_pick_up(
                player_id@,
                within_reach,
            )),
            name matches Some(n) ==> n@ == player_of(
                old(self)@.lobby(lobby_id@).players,
                player_id@,
            ).name,
            final(self)@ == if name is Some {
                old(self)@.with_lobby(lobby_id@, old(self)@.lobby(lobby_id@).picked_up(player_id@))
            } else {
                old(self)@
            },
    {
        let id = owned(lobby_id);
        let pid = owned(player_id);
        match self.find(&id) {
            Some(i) => {
                let picked = self.lobbies[i].pickup_bomb(player_id, within_reach);
                assert(self@.lobbies =~= old(self)@.lobbies.update(i as int, self@.lobbies[i as int]));
                proof {
                    lemma_lobby_replaced(old(self)@, self@, id@, i as int);
                }
                if picked {
                    proof {
                        let ops = old(self)@.lobbies[i as int].players;
                        crate::roster::lemma_update_player(
                            ops,
                            pid@,
                            |p: PlayerView| crate::lobby::with_bomb(p, true),
                        );
                        let j0 = choose|j: int| 0 <= j < ops.len() && #[trigger] ops[j].id == pid@;
                        assert(self@.lobbies[i as int].players[j0].id == pid@);
                    }
                    match crate::roster::find_player(&self.lobbies[i].players, &pid) {
                        Some(j) => {
                            proof {
                                crate::roster::lemma_found_player(self@.lobbies[i as int].players, pid@, j as int);
                                crate::roster::lemma_update_player(
                                    old(self)@.lobbies[i as int].players,
                                    pid@,
                                    |p: PlayerView| crate::lobby::with_bomb(p, true),
                                );
                                crate::roster::lemma_found_player(
                                    old(self)@.lobbies[i as int].players,
                                    pid@,
                                    crate::roster::player_index(old(self)@.lobbies[i as int].players, pid@),
                                );
                                assert(self@.lobbies[i as int].players[j as int].name == old(self)@.lobbies[i as int].players[j as int].name);
                                assert(old(self)@.lobbies[i as int].players[j as int].id == pid@);
                            }
                            Some(self.lobbies[i].players[j].name.clone())
                        },
                        None => None,
                    }
                } else {
                    None
                }
            },
            None => None,
        }
    }

    /// The attacking team of the lobby `lobby_id`, if there is one.
    pub fn get_attacking_team(&self, lobby_id: &str) -> (team: Option<TeamColor>)
        requires
            self@.wf(),
        ensures
            team == if self@.has(lobby_id@) {
                Some(self@.lobby(lobby_id@).attacking_team)
            } else {
                None
            },
    {
        let id = owned(lobby_id);
        match self.find(&id) {
            Some(i) => Some(self.lobbies[i].attacking_team),
            None => None,
        }
    }

    /// Sets the money of `player_id` in the lobby `lobby_id`.
    pub fn update_player_money(&mut self, lobby_id: &str, player_id: &str, new_money: i32)
        requires
            old(self)@.wf(),
        ensures
            final(self)@.wf(),
            final(self)@ == old(self)@.with_lobby(
                lobby_id@,
                LobbyView {
                    players: update_player(
                        old(self)@.lobby(lobby_id@).players,
                        player_id@,
                        |p: PlayerView| crate::lobby::with_money(p, new_money as int),
                    ),
                    ..old(self)@.lobby(lobby_id@)
                },
            ),
    {
        let id = owned(lobby_id);
        let pid = owned(player_id);
        match self.find(&id) {
            Some(i) => {
                match crate::roster::find_player(&self.lobbies[i].players, &pid) {
                    Some(j) => {
                        let ghost before = self@.lobbies[i as int];
                        proof {
                            crate::roster::lemma_found_player(before.players, pid@, j as int);
                        }
                        self.lobbies[i].players[j].money = new_money;
                        proof {
                            crate::roster::lemma_replace_player(
                                before.players,
                                j as int,
                                crate::lobby::with_money(before.players[j as int], new_money as int),
                            );
                        }
                        assert(self@.lobbies[i as int].players =~= before.players.update(
                            j as int,
                            crate::lobby::with_money(before.players[j as int], new_money as int),
                        ));
                        assert(self@.lobbies[i as int] =~= LobbyView {
                            players: update_player(
                                before.players,
                                player_id@,
                                |p: PlayerView| crate::lobby::with_money(p, new_money as int),
                            ),
                            ..before
                        });
                        assert(self@.lobbies =~= old(self)@.lobbies.update(i as int, self@.lobbies[i as int]));
                        proof {
                            lemma_lobby_replaced(old(self)@, self@, id@, i as int);
                        }
                    },
                    None => {
                        assert(self@.lobbies =~= old(self)@.lobbies.update(i as int, self@.lobbies[i as int]));
                        assert(self@.lobbies[i as int] =~= LobbyView {
                            players: update_player(
                                self@.lobbies[i as int].players,
                                player_id@,
                                |p: PlayerView| crate::lobby::with_money(p, new_money as int),
                            ),
                            ..self@.lobbies[i as int]
                        });
                        proof {
                            lemma_lobby_replaced(old(self)@, self@, id@, i as int);
                        }
                    },
                }
            },
            None => {},
        }
    }

    /// Whether the match of the lobby `lobby_id` has ended.
    pub fn is_match_over(&self, lobby_id: &str) -> (over: bool)
        requires
            self@.wf(),
        ensures
            over == (self@.has(lobby_id@) && self@.lobby(lobby_id@).game_state == GameState::MatchEnd),
    {
        let id = owned(lobby_id);
        match self.find(&id) {
            Some(i) => matches!(self.lobbies[i].game_state, GameState::MatchEnd),
            None => false,
        }
    }

    /// Whether the lobby `lobby_id` is past the end of its last round: it
    /// exists and is not waiting for its next round.
    pub fn next_round_begun(&self, lobby_id: &str) -> (begun: bool)
        requires
            self@.wf(),
        ensures
            begun == (self@.has(lobby_id@) && self@.lobby(lobby_id@).game_state != GameState::RoundEnd),
    {
        let id = owned(lobby_id);
        match self.find(&id) {
            Some(i) => !matches!(self.lobbies[i].game_state, GameState::RoundEnd),
            None => false,
        }
    }

    /// Announces, once, the winner of the match of the lobby `lobby_id`.
    pub fn take_match_end_winner(&mut self, lobby_id: &str) -> (winner: Option<&'static str>)
        requires
            old(self)@.wf(),
        ensures
            final(self)@.wf(),
            ({
                let l = old(self)@.lobby(lobby_id@);
                if old(self)@.has(lobby_id@) && l.game_state == GameState::MatchEnd
                    && !l.match_end_announced {
                    &&& winner is Some
                    &&& winner.unwrap()@ == if l.orange_score >= crate::lobby::ROUND_WINS_TO_WIN_MATCH {
                        "orange"@
                    } else {
                        "red"@
                    }
                    &&& final(self)@ == old(self)@.with_lobby(
                        lobby_id@,
                        LobbyView { match_end_announced: true, ..l },
                    )
                } else {
                    winner is None && final(self)@ == old(self)@
                }
            }),
    {
        let id = owned(lobby_id);
        match self.find(&id) {
            Some(i) => {
                let r = self.lobbies[i].take_match_end_winner();
                assert(self@.lobbies =~= old(self)@.lobbies.update(i as int, self@.lobbies[i as int]));
                proof {
                    lemma_lobby_replaced(old(self)@, self@, id@, i as int);
                }
                r
            },
            None => None,
        }
    }

    /// Closes every team lobby without players; the deathmatch lobby and
    /// other lobbies stay.
    pub fn cleanup_empty_team_lobbies(&mut self)
        requires
            old(self)@.wf(),
        ensures
            final(self)@.wf(),
            final(self)@ == (ManagerView {
                lobbies: old(self)@.lobbies.filter(|l: LobbyView| old(self)@.keeps(l)),
                ..old(self)@
            }),
    {
        let ghost o = old(self)@;
        let ghost keep = |l: LobbyView| o.keeps(l);
        let mut rest: Vec<Lobby> = Vec::new();
        std::mem::swap(&mut rest, &mut self.lobbies);
        let ghost all = lobbies_view(rest@);
        assert(all == o.lobbies);
        let mut k: usize = 0;
        let n = rest.len();
        let mut pending = rest;
        assert(all.take(0) =~= Seq::<LobbyView>::empty());
        assert(lobbies_view(self.lobbies@) =~= all.take(0).filter(keep));
        assert(lobbies_view(pending@) =~= all.skip(0));
        while k < n
            invariant
                o == old(self)@,
                all == o.lobbies,
                keep == (|l: LobbyView| o.keeps(l)),
                n == all.len(),
                k <= n,
                lobbies_view(pending@) == all.skip(k as int),
                lobbies_view(self.lobbies@) == all.take(k as int).filter(keep),
                self.deathmatch_lobby_id == old(self).deathmatch_lobby_id,
                self.team_selection_lobby_id == old(self).team_selection_lobby_id,
            decreases n - k,
        {
            assert(lobbies_view(pending@).len() == pending@.len());
            assert(all.skip(k as int).len() == n - k);
            assert(pending.len() > 0);
            assert(lobbies_view(pending@)[0] == all[k as int]);
            let ghost first = pending@[0];
            assert(first@ == all[k as int]);
            let ghost prev = pending@;
            let l = pending.remove(0);
            assert(l == first);
            assert forall|j: int| 0 <= j < pending@.len() implies #[trigger] pending@[j] == prev[j + 1] by {}
            assert forall|j: int| 0 <= j < pending@.len() implies #[trigger] lobbies_view(pending@)[j]
                == all.skip(k + 1)[j] by {
                assert(pending@[j] == prev[j + 1]);
                assert(lobbies_view(prev)[j + 1] == all.skip(k as int)[j + 1]);
            }
            assert(lobbies_view(pending@) =~= all.skip(k + 1));
            assert(all.take(k + 1) =~= all.take(k as int).push(all[k as int]));
            proof {
                all.take(k as int).lemma_filter_push(all[k as int], keep);
            }
            let keep_it = match &self.deathmatch_lobby_id {
                Some(dm) => l.id == *dm,
                None => false,
            } || !matches!(l.game_mode, GameMode::TeamVsTeam) || l.players.len() > 0;
            if keep_it {
                let ghost before = lobbies_view(self.lobbies@);
                self.lobbies.push(l);
                assert(lobbies_view(self.lobbies@) =~= before.push(all[k as int]));
            }
            k = k + 1;
        }
        assert(all.take(n as int) =~= all);
        proof {
            let r = self@.lobbies;
            broadcast use vstd::seq_lib::group_filter_ensures;
            assert forall|a: int| 0 <= a < r.len() implies (#[trigger] r[a]).wf() by {
                assert(all.filter(keep).contains(r[a]));
                all.lemma_filter_contains_rev(keep, r[a]);
                assert(all.contains(r[a]));
                let j = choose|j: int| 0 <= j < all.len() && all[j] == r[a];
                assert(all[j].wf());
            }
            lemma_filter_keeps_unique(all, keep);
        }
    }
}

/// Keeping some of a list of lobbies with unique ids keeps the ids unique.
pub proof fn lemma_filter_keeps_unique(ls: Seq<LobbyView>, keep: spec_fn(LobbyView) -> bool)
    requires
        lobby_ids_unique(ls),
    ensures
        lobby_ids_unique(ls.filter(keep)),
        forall|x: Seq<char>| has_lobby(ls.filter(keep), x) ==> has_lobby(ls, x),
    decreases ls.len(),
{
    reveal(Seq::filter);
    if ls.len() > 0 {
        let init = ls.drop_last();
        assert forall|a: int, b: int|
            0 <= a < init.len() && 0 <= b < init.len() && #[trigger] init[a].id == #[trigger] init[b].id implies a
            == b by {
            assert(ls[a].id == ls[b].id);
        }
        lemma_filter_keeps_unique(init, keep);
        let f = init.filter(keep);
        if keep(ls.last()) {
            let r = f.push(ls.last());
            assert(r == ls.filter(keep));
            if has_lobby(f, ls.last().id) {
                let j = choose|j: int| 0 <= j < f.len() && #[trigger] f[j].id == ls.last().id;
                assert(has_lobby(init, ls.last().id));
                let k = choose|k: int| 0 <= k < init.len() && #[trigger] init[k].id == ls.last().id;
                assert(ls[k].id == ls[ls.len() - 1].id);
            }
            assert forall|a: int, b: int|
                0 <= a < r.len() && 0 <= b < r.len() && #[trigger] r[a].id == #[trigger] r[b].id implies a
                == b by {
                if a < f.len() && b == f.len() {
                    assert(f[a].id == ls.last().id);
                }
                if b < f.len() && a == f.len() {
                    assert(f[b].id == ls.last().id);
                }
            }
            assert forall|x: Seq<char>| has_lobby(r, x) implies has_lobby(ls, x) by {
                let j = choose|j: int| 0 <= j < r.len() && #[trigger] r[j].id == x;
                if j < f.len() {
                    assert(f[j].id == x);
                    assert(has_lobby(init, x));
                    let k = choose|k: int| 0 <= k < init.len() && #[trigger] init[k].id == x;
                    assert(ls[k].id == x);
                } else {
                    assert(ls[ls.len() - 1].id == x);
                }
            }
        } else {
            assert(f == ls.filter(keep));
            assert forall|x: Seq<char>| has_lobby(f, x) implies has_lobby(ls, x) by {
                assert(has_lobby(init, x));
                let k = choose|k: int| 0 <= k < init.len() && #[trigger] init[k].id == x;
                assert(ls[k].id == x);
            }
        }
    }
}


/// The messages a tick sends about each lobby, `f` giving those about one
/// lobby from its state before and after the tick, for the first `n` lobbies.
pub open spec fn lobby_notices(
    before: Seq<LobbyView>,
    after: Seq<LobbyView>,
    n: int,
    f: spec_fn(LobbyView, LobbyView) -> Seq<DeliveryView>,
) -> Seq<DeliveryView>
    decreases n,
{
    if n <= 0 {
        Seq::empty()
    } else {
        lobby_notices(before, after, n - 1, f) + f(before[n - 1], after[n - 1])
    }
}

pub proof fn lemma_notices_prefix(
    before: Seq<LobbyView>,
    a: Seq<LobbyView>,
    b: Seq<LobbyView>,
    n: int,
    f: spec_fn(LobbyView, LobbyView) -> Seq<DeliveryView>,
)
    requires
        forall|j: int| 0 <= j < n ==> a[j] == b[j],
    ensures
        lobby_notices(before, a, n, f) == lobby_notices(before, b, n, f),
    decreases n,
{
    if n > 0 {
        lemma_notices_prefix(before, a, b, n - 1, f);
        assert(a[n - 1] == b[n - 1]);
    }
}

/// The end of a build phase, announced to the lobby.
pub open spec fn build_end_notice(b: BroadcasterView) -> spec_fn(LobbyView, LobbyView) -> Seq<
    DeliveryView,
> {
    |o: LobbyView, n: LobbyView|
        if o.game_state != n.game_state {
            seq![
                DeliveryView {
                    recipients: b.lobby_recipients(o.id, None),
                    message: MessageView::BuildPhaseEnd { round_time: ROUND_TIMER_SECS },
                },
            ]
        } else {
            Seq::empty()
        }
}

/// An explosion, announced to the lobby with the round's result, and each
/// player's money sent to that player.
pub open spec fn explosion_notice(b: BroadcasterView) -> spec_fn(LobbyView, LobbyView) -> Seq<
    DeliveryView,
> {
    |o: LobbyView, n: LobbyView|
        if o.bomb_planted && !n.bomb_planted {
            seq![
                DeliveryView {
                    recipients: b.lobby_recipients(o.id, None),
                    message: MessageView::BombExploded,
                },
                DeliveryView {
                    recipients: b.lobby_recipients(o.id, None),
                    message: MessageView::RoundEnd {
                        winner: n.attacking_team.name(),
                        reason: "Bomb Exploded"@,
                        orange_score: n.orange_score,
                        red_score: n.red_score,
                    },
                },
            ] + money_updates(b, n.players)
        } else {
            Seq::empty()
        }
}

/// A new round, announced to the lobby: the map reset at halftime, every
/// player respawned, the round's start, each player's money, and the bomb to
/// its carrier.
pub open spec fn round_start_notice(b: BroadcasterView) -> spec_fn(LobbyView, LobbyView) -> Seq<
    DeliveryView,
> {
    |o: LobbyView, n: LobbyView|
        if o.game_state == GameState::RoundEnd && n.game_state == GameState::BuildPhase {
            (if o.next_round_switches() {
                seq![
                    DeliveryView {
                        recipients: b.lobby_recipients(o.id, None),
                        message: MessageView::MapReset,
                    },
                ]
            } else {
                Seq::empty()
            }) + respawn_notices(b, o.id, n.players) + seq![
                DeliveryView {
                    recipients: b.lobby_recipients(o.id, None),
                    message: MessageView::RoundStart {
                        round_number: n.round_number,
                        buy_time: BUY_TIME_SECS as int,
                        orange_score: n.orange_score,
                        red_score: n.red_score,
                        attacking_team: n.attacking_team.name(),
                    },
                },
            ] + money_updates(b, n.players) + (match n.bomb_carrier_id {
                Some(c) => seq![
                    DeliveryView {
                        recipients: b.player_recipients(c),
                        message: MessageView::GiveBomb { player_id: c },
                    },
                ],
                None => Seq::empty(),
            })
        } else {
            Seq::empty()
        }
}

/// The lobby `o` after its build phase was checked, `since` milliseconds
/// after it began.
pub open spec fn build_phase_after(o: LobbyView, n: LobbyView, since: Option<u64>) -> bool {
    n == if o.build_phase_over(since) {
        o.build_ended(n.round_start_time.unwrap())
    } else {
        o
    }
}

/// The lobby `o` after its bomb timer was checked, `since` milliseconds
/// after the plant.
pub open spec fn bomb_after(o: LobbyView, n: LobbyView, since: Option<u64>) -> bool {
    n == if o.bomb_goes_off(since) {
        o.bomb_cleared().round_ended(o.attacking_team, n.round_end_time.unwrap())
    } else {
        o
    }
}

/// The lobby `o` after it was checked whether its next round is due,
/// `since` milliseconds after the last ended; `seed` picks the bomb carrier.
pub open spec fn restart_after(o: LobbyView, n: LobbyView, since: Option<u64>, seed: usize) -> bool {
    if o.restart_due(since) {
        &&& n.build_phase_start is Some
        &&& n == o.next_round(seed, n.build_phase_start.unwrap())
    } else {
        n == o
    }
}

/// A lobby after a tick checked its build phase against the clock.
pub open spec fn build_phase_checked(o: LobbyView, n: LobbyView) -> bool {
    exists|since: Option<u64>|
        since is Some == o.build_phase_start is Some && #[trigger] build_phase_after(o, n, since)
}

/// A lobby after a tick checked its bomb timer against the clock.
pub open spec fn bomb_checked(o: LobbyView, n: LobbyView) -> bool {
    exists|since: Option<u64>|
        since is Some == o.bomb_plant_time is Some && #[trigger] bomb_after(o, n, since)
}

/// A lobby after a tick checked whether its next round is due.
pub open spec fn restart_checked(o: LobbyView, n: LobbyView) -> bool {
    exists|since: Option<u64>, seed: usize|
        since is Some == o.round_end_time is Some && #[trigger] restart_after(o, n, since, seed)
}

impl LobbyManager {
    /// Ends every build phase that has lasted long enough, and announces it
    /// to the lobby.
    pub fn check_all_build_phase_timeouts_after(
        &mut self,
        broadcaster: &MessageBroadcaster,
        since: &Vec<Option<u64>>,
    ) -> (out: Vec<Delivery>)
        requires
            old(self)@.wf(),
            broadcaster.wf(),
            since.len() == old(self)@.lobbies.len(),
            forall|i: int|
                0 <= i < since.len() ==> (#[trigger] since@[i] is Some) == old(self)@.lobbies[i].build_phase_start is Some,
        ensures
            final(self)@.wf(),
            final(self)@.lobbies.len() == old(self)@.lobbies.len(),
            final(self)@.deathmatch_lobby_id == old(self)@.deathmatch_lobby_id,
            final(self)@.team_selection_lobby_id == old(self)@.team_selection_lobby_id,
            forall|i: int|
                0 <= i < old(self)@.lobbies.len() ==> build_phase_after(
                    old(self)@.lobbies[i],
                    #[trigger] final(self)@.lobbies[i],
                    since@[i],
                ),
            deliveries_view(out@) == lobby_notices(
                old(self)@.lobbies,
                final(self)@.lobbies,
                old(self)@.lobbies.len() as int,
                build_end_notice(broadcaster@),
            ),
    {
        let ghost o = old(self)@;
        let ghost f = build_end_notice(broadcaster@);
        let mut out: Vec<Delivery> = Vec::new();
        let n = self.lobbies.len();
        let mut i: usize = 0;
        assert(deliveries_view(out@) =~= lobby_notices(o.lobbies, self@.lobbies, 0, f));
        while i < n
            invariant
                o == old(self)@,
                f == build_end_notice(broadcaster@),
                broadcaster.wf(),
                n == o.lobbies.len(),
                i <= n,
                self@.lobbies.len() == n,
                self@.deathmatch_lobby_id == o.deathmatch_lobby_id,
                self@.team_selection_lobby_id == o.team_selection_lobby_id,
                forall|j: int| 0 <= j < n ==> (#[trigger] self@.lobbies[j]).id == o.lobbies[j].id,
                forall|j: int| 0 <= j < n ==> (#[trigger] self@.lobbies[j]).wf(),
                since.len() == n,
                forall|j: int|
                    0 <= j < n ==> (#[trigger] since@[j] is Some) == o.lobbies[j].build_phase_start is Some,
                forall|j: int| 0 <= j < i ==> build_phase_after(o.lobbies[j], #[trigger] self@.lobbies[j], since@[j]),
                forall|j: int| i <= j < n ==> #[trigger] self@.lobbies[j] == o.lobbies[j],
                deliveries_view(out@) == lobby_notices(o.lobbies, self@.lobbies, i as int, f),
            decreases n - i,
        {
            let ghost before = self@.lobbies;
            assert(before[i as int] == o.lobbies[i as int]);
            let ended = self.lobbies[i].check_build_phase_timeout_after(since[i]);
            assert(self@.lobbies =~= before.update(i as int, self@.lobbies[i as int]));
            proof {
                lemma_notices_prefix(o.lobbies, before, self@.lobbies, i as int, f);
            }
            let ghost prev = deliveries_view(out@);
            if ended {
                let msg = ServerMessage::BuildPhaseEnd { round_time: ROUND_TIMER_SECS };
                let d = broadcaster.broadcast_to_lobby(self.lobbies[i].id.as_str(), msg, None);
                assert(self@.lobbies[i as int].game_state != o.lobbies[i as int].game_state);
                assert(d@ == f(o.lobbies[i as int], self@.lobbies[i as int])[0]);
                out.push(d);
                assert(deliveries_view(out@) =~= prev + f(o.lobbies[i as int], self@.lobbies[i as int]));
            } else {
                assert(deliveries_view(out@) =~= prev + f(o.lobbies[i as int], self@.lobbies[i as int]));
            }
            i = i + 1;
        }
        proof {
            let ls = self@.lobbies;
            assert forall|a: int, b: int|
                0 <= a < ls.len() && 0 <= b < ls.len() && #[trigger] ls[a].id == #[trigger] ls[b].id implies a
                == b by {
                assert(o.lobbies[a].id == o.lobbies[b].id);
            }
        }
        out
    }

    /// Explodes every bomb whose timer ran out, and announces the explosion,
    /// the round's result and the players' money.
    pub fn check_all_bomb_explosions_after(
        &mut self,
        broadcaster: &MessageBroadcaster,
        since: &Vec<Option<u64>>,
    ) -> (out: Vec<Delivery>)
        requires
            old(self)@.wf(),
            broadcaster.wf(),
            old(self)@.scores_fit(),
            since.len() == old(self)@.lobbies.len(),
            forall|i: int|
                0 <= i < since.len() ==> (#[trigger] since@[i] is Some) == old(self)@.lobbies[i].bomb_plant_time is Some,
        ensures
            final(self)@.wf(),
            final(self)@.lobbies.len() == old(self)@.lobbies.len(),
            final(self)@.deathmatch_lobby_id == old(self)@.deathmatch_lobby_id,
            final(self)@.team_selection_lobby_id == old(self)@.team_selection_lobby_id,
            forall|i: int|
                0 <= i < old(self)@.lobbies.len() ==> bomb_after(
                    old(self)@.lobbies[i],
                    #[trigger] final(self)@.lobbies[i],
                    since@[i],
                ),
            deliveries_view(out@) == lobby_notices(
                old(self)@.lobbies,
                final(self)@.lobbies,
                old(self)@.lobbies.len() as int,
                explosion_notice(broadcaster@),
            ),
    {
        let ghost o = old(self)@;
        let ghost f = explosion_notice(broadcaster@);
        let mut out: Vec<Delivery> = Vec::new();
        let n = self.lobbies.len();
        let mut i: usize = 0;
        assert(deliveries_view(out@) =~= lobby_notices(o.lobbies, self@.lobbies, 0, f));
        while i < n
            invariant
                o == old(self)@,
                f == explosion_notice(broadcaster@),
                broadcaster.wf(),
                n == o.lobbies.len(),
                i <= n,
                forall|j: int|
                    0 <= j < n ==> (#[trigger] o.lobbies[j]).orange_score < i32::MAX
                        && o.lobbies[j].red_score < i32::MAX,
                self@.lobbies.len() == n,
                self@.deathmatch_lobby_id == o.deathmatch_lobby_id,
                self@.team_selection_lobby_id == o.team_selection_lobby_id,
                forall|j: int| 0 <= j < n ==> (#[trigger] self@.lobbies[j]).id == o.lobbies[j].id,
                forall|j: int| 0 <= j < n ==> (#[trigger] self@.lobbies[j]).wf(),
                since.len() == n,
                forall|j: int|
                    0 <= j < n ==> (#[trigger] since@[j] is Some) == o.lobbies[j].bomb_plant_time is Some,
                forall|j: int| 0 <= j < i ==> bomb_after(o.lobbies[j], #[trigger] self@.lobbies[j], since@[j]),
                forall|j: int| i <= j < n ==> #[trigger] self@.lobbies[j] == o.lobbies[j],
                deliveries_view(out@) == lobby_notices(o.lobbies, self@.lobbies, i as int, f),
            decreases n - i,
        {
            let ghost before = self@.lobbies;
            assert(before[i as int] == o.lobbies[i as int]);
            let exploded = self.lobbies[i].check_bomb_explosion_after(since[i]);
            assert(self@.lobbies =~= before.update(i as int, self@.lobbies[i as int]));
            proof {
                lemma_notices_prefix(o.lobbies, before, self@.lobbies, i as int, f);
            }
            let ghost prev = deliveries_view(out@);
            if exploded {
                let l = &self.lobbies[i];
                let d1 = broadcaster.broadcast_to_lobby(l.id.as_str(), ServerMessage::BombExploded, None);
                out.push(d1);
                let winner = owned(l.attacking_team.as_str());
                let reason = owned("Bomb Exploded");
                let msg = ServerMessage::RoundEnd {
                    winner,
                    reason,
                    orange_score: l.orange_score,
                    red_score: l.red_score,
                };
                let d2 = broadcaster.broadcast_to_lobby(l.id.as_str(), msg, None);
                out.push(d2);
                let ghost mid = deliveries_view(out@);
                push_money_updates(broadcaster, &l.players, &mut out);
                assert(deliveries_view(out@) =~= prev + f(o.lobbies[i as int], self@.lobbies[i as int]));
            } else {
                assert(deliveries_view(out@) =~= prev + f(o.lobbies[i as int], self@.lobbies[i as int]));
            }
            i = i + 1;
        }
        proof {
            let ls = self@.lobbies;
            assert forall|a: int, b: int|
                0 <= a < ls.len() && 0 <= b < ls.len() && #[trigger] ls[a].id == #[trigger] ls[b].id implies a
                == b by {
                assert(o.lobbies[a].id == o.lobbies[b].id);
            }
        }
        out
    }

    /// Starts the next round of every lobby whose round ended long enough
    /// ago, and announces it.
    pub fn check_all_round_restarts_after(
        &mut self,
        broadcaster: &MessageBroadcaster,
        since: &Vec<Option<u64>>,
        seeds: &Vec<usize>,
    ) -> (out: Vec<Delivery>)
        requires
            old(self)@.wf(),
            broadcaster.wf(),
            old(self)@.round_numbers_fit(),
            since.len() == old(self)@.lobbies.len(),
            seeds.len() == old(self)@.lobbies.len(),
        ensures
            final(self)@.wf(),
            final(self)@.lobbies.len() == old(self)@.lobbies.len(),
            final(self)@.deathmatch_lobby_id == old(self)@.deathmatch_lobby_id,
            final(self)@.team_selection_lobby_id == old(self)@.team_selection_lobby_id,
            forall|i: int|
                0 <= i < old(self)@.lobbies.len() ==> restart_after(
                    old(self)@.lobbies[i],
                    #[trigger] final(self)@.lobbies[i],
                    since@[i],
                    seeds@[i],
                ),
            deliveries_view(out@) == lobby_notices(
                old(self)@.lobbies,
                final(self)@.lobbies,
                old(self)@.lobbies.len() as int,
                round_start_notice(broadcaster@),
            ),
    {
        let ghost o = old(self)@;
        let ghost f = round_start_notice(broadcaster@);
        let mut out: Vec<Delivery> = Vec::new();
        let n = self.lobbies.len();
        let mut i: usize = 0;
        assert(deliveries_view(out@) =~= lobby_notices(o.lobbies, self@.lobbies, 0, f));
        while i < n
            invariant
                o == old(self)@,
                f == round_start_notice(broadcaster@),
                broadcaster.wf(),
                n == o.lobbies.len(),
                i <= n,
                o.round_numbers_fit(),
                since.len() == n,
                seeds.len() == n,
                self@.lobbies.len() == n,
                self@.deathmatch_lobby_id == o.deathmatch_lobby_id,
                self@.team_selection_lobby_id == o.team_selection_lobby_id,
                forall|j: int| 0 <= j < n ==> (#[trigger] self@.lobbies[j]).id == o.lobbies[j].id,
                forall|j: int| 0 <= j < n ==> (#[trigger] self@.lobbies[j]).wf(),
                forall|j: int|
                    0 <= j < i ==> restart_after(o.lobbies[j], #[trigger] self@.lobbies[j], since@[j], seeds@[j]),
                forall|j: int| i <= j < n ==> #[trigger] self@.lobbies[j] == o.lobbies[j],
                deliveries_view(out@) == lobby_notices(o.lobbies, self@.lobbies, i as int, f),
            decreases n - i,
        {
            let ghost before = self@.lobbies;
            assert(before[i as int] == o.lobbies[i as int]);
            let (restarted, switched) = self.lobbies[i].check_round_restart_seeded(since[i], seeds[i]);
            assert(self@.lobbies =~= before.update(i as int, self@.lobbies[i as int]));
            proof {
                lemma_notices_prefix(o.lobbies, before, self@.lobbies, i as int, f);
            }
            let ghost prev = deliveries_view(out@);
            if restarted {
                let l = &self.lobbies[i];
                let ghost s0 = deliveries_view(out@);
                let ghost ol = o.lobbies[i as int];
                let ghost nl = self@.lobbies[i as int];
                let ghost b = broadcaster@;
                let ghost part1 = if ol.next_round_switches() {
                    seq![DeliveryView { recipients: b.lobby_recipients(ol.id, None), message: MessageView::MapReset }]
                } else {
                    Seq::<DeliveryView>::empty()
                };
                if switched {
                    let d = broadcaster.broadcast_to_lobby(l.id.as_str(), ServerMessage::MapReset, None);
                    out.push(d);
                }
                let ghost s1 = deliveries_view(out@);
                assert(s1 =~= s0 + part1);
                push_respawn_notices(broadcaster, l.id.as_str(), &l.players, &mut out);
                let ghost s2 = deliveries_view(out@);
                assert(s2 =~= s0 + part1 + respawn_notices(b, ol.id, nl.players));
                let msg = ServerMessage::RoundStart {
                    round_number: l.round_number,
                    buy_time: BUY_TIME_SECS,
                    orange_score: l.orange_score,
                    red_score: l.red_score,
                    attacking_team: owned(l.attacking_team.as_str()),
                };
                let d = broadcaster.broadcast_to_lobby(l.id.as_str(), msg, None);
                let ghost start_notice = DeliveryView {
                    recipients: b.lobby_recipients(ol.id, None),
                    message: MessageView::RoundStart {
                        round_number: nl.round_number,
                        buy_time: BUY_TIME_SECS as int,
                        orange_score: nl.orange_score,
                        red_score: nl.red_score,
                        attacking_team: nl.attacking_team.name(),
                    },
                };
                assert(d@ == start_notice);
                out.push(d);
                let ghost s3 = deliveries_view(out@);
                assert(s3 =~= s0 + part1 + respawn_notices(b, ol.id, nl.players) + seq![start_notice]);
                push_money_updates(broadcaster, &l.players, &mut out);
                let ghost s4 = deliveries_view(out@);
                let ghost part5 = match nl.bomb_carrier_id {
                    Some(c) => seq![
                        DeliveryView {
                            recipients: b.player_recipients(c),
                            message: MessageView::GiveBomb { player_id: c },
                        },
                    ],
                    None => Seq::<DeliveryView>::empty(),
                };
                match &l.bomb_carrier_id {
                    Some(c) => {
                        let msg = ServerMessage::GiveBomb { player_id: c.clone() };
                        let d = broadcaster.send_to_player(c.as_str(), msg);
                        assert(d@ == part5[0]);
                        out.push(d);
                    },
                    None => {},
                }
                assert(deliveries_view(out@) =~= s4 + part5);
                assert(f(ol, nl) =~= part1 + respawn_notices(b, ol.id, nl.players) + seq![start_notice]
                    + money_updates(b, nl.players) + part5);
                proof {
                    let nl = self@.lobbies[i as int];
                    let ol = o.lobbies[i as int];
                    assert(ol.game_state == GameState::RoundEnd);
                    assert(nl.game_state == GameState::BuildPhase);
                }
                assert(deliveries_view(out@) =~= prev + f(o.lobbies[i as int], self@.lobbies[i as int]));
            } else {
                assert(deliveries_view(out@) =~= prev + f(o.lobbies[i as int], self@.lobbies[i as int]));
            }
            i = i + 1;
        }
        proof {
            let ls = self@.lobbies;
            assert forall|a: int, b: int|
                0 <= a < ls.len() && 0 <= b < ls.len() && #[trigger] ls[a].id == #[trigger] ls[b].id implies a
                == b by {
                assert(o.lobbies[a].id == o.lobbies[b].id);
            }
        }
        out
    }
}


/// The milliseconds since `t`, if there is one, read from the clock.
fn elapsed_since(t: &Option<std::time::Instant>) -> (ms: Option<u64>)
    ensures
        ms is Some == t is Some,
{
    match t {
        Some(t) => Some(crate::clock::elapsed_millis(t)),
        None => None,
    }
}

impl LobbyManager {
    /// For each lobby, the milliseconds since its build phase began.
    fn since_build_phase_starts(&self) -> (since: Vec<Option<u64>>)
        ensures
            since.len() == self@.lobbies.len(),
            forall|i: int|
                0 <= i < since.len() ==> (#[trigger] since@[i] is Some) == self@.lobbies[i].build_phase_start is Some,
    {
        let mut since: Vec<Option<u64>> = Vec::new();
        let mut i: usize = 0;
        while i < self.lobbies.len()
            invariant
                i <= self.lobbies.len(),
                since.len() == i,
                forall|j: int|
                    0 <= j < i ==> (#[trigger] since@[j] is Some) == self@.lobbies[j].build_phase_start is Some,
            decreases self.lobbies.len() - i,
        {
            assert(self@.lobbies[i as int] == self.lobbies@[i as int]@);
            since.push(elapsed_since(&self.lobbies[i].build_phase_start));
            i = i + 1;
        }
        since
    }

    /// For each lobby, the milliseconds since its bomb was planted.
    fn since_plants(&self) -> (since: Vec<Option<u64>>)
        ensures
            since.len() == self@.lobbies.len(),
            forall|i: int|
                0 <= i < since.len() ==> (#[trigger] since@[i] is Some) == self@.lobbies[i].bomb_plant_time is Some,
    {
        let mut since: Vec<Option<u64>> = Vec::new();
        let mut i: usize = 0;
        while i < self.lobbies.len()
            invariant
                i <= self.lobbies.len(),
                since.len() == i,
                forall|j: int|
                    0 <= j < i ==> (#[trigger] since@[j] is Some) == self@.lobbies[j].bomb_plant_time is Some,
            decreases self.lobbies.len() - i,
        {
            assert(self@.lobbies[i as int] == self.lobbies@[i as int]@);
            since.push(elapsed_since(&self.lobbies[i].bomb_plant_time));
            i = i + 1;
        }
        since
    }

    /// For each lobby, the milliseconds since its last round ended.
    fn since_round_ends(&self) -> (since: Vec<Option<u64>>)
        ensures
            since.len() == self@.lobbies.len(),
            forall|i: int|
                0 <= i < since.len() ==> (#[trigger] since@[i] is Some) == self@.lobbies[i].round_end_time is Some,
    {
        let mut since: Vec<Option<u64>> = Vec::new();
        let mut i: usize = 0;
        while i < self.lobbies.len()
            invariant
                i <= self.lobbies.len(),
                since.len() == i,
                forall|j: int|
                    0 <= j < i ==> (#[trigger] since@[j] is Some) == self@.lobbies[j].round_end_time is Some,
            decreases self.lobbies.len() - i,
        {
            assert(self@.lobbies[i as int] == self.lobbies@[i as int]@);
            since.push(elapsed_since(&self.lobbies[i].round_end_time));
            i = i + 1;
        }
        since
    }

    /// For each lobby, a seed for the choice of the next bomb carrier: the
    /// clock's nanoseconds, or else the next round's number.
    fn carrier_seeds(&self) -> (seeds: Vec<usize>)
        requires
            self@.round_numbers_fit(),
        ensures
            seeds.len() == self@.lobbies.len(),
    {
        let mut seeds: Vec<usize> = Vec::new();
        let mut i: usize = 0;
        while i < self.lobbies.len()
            invariant
                self@.round_numbers_fit(),
                i <= self.lobbies.len(),
                seeds.len() == i,
            decreases self.lobbies.len() - i,
        {
            assert(self@.lobbies[i as int] == self.lobbies@[i as int]@);
            let seed = match crate::clock::clock_nanos() {
                Some(n) => n as usize,
                None => (self.lobbies[i].round_number + 1) as usize,
            };
            seeds.push(seed);
            i = i + 1;
        }
        seeds
    }

    /// Ends every build phase that has lasted long enough, reading the
    /// clock, and announces it to the lobby.
    pub fn check_all_build_phase_timeouts(&mut self, broadcaster: &MessageBroadcaster) -> (out: Vec<Delivery>)
        requires
            old(self)@.wf(),
            broadcaster.wf(),
        ensures
            final(self)@.wf(),
            final(self)@.lobbies.len() == old(self)@.lobbies.len(),
            final(self)@.deathmatch_lobby_id == old(self)@.deathmatch_lobby_id,
            final(self)@.team_selection_lobby_id == old(self)@.team_selection_lobby_id,
            forall|i: int|
                0 <= i < old(self)@.lobbies.len() ==> build_phase_checked(
                    old(self)@.lobbies[i],
                    #[trigger] final(self)@.lobbies[i],
                ),
            deliveries_view(out@) == lobby_notices(
                old(self)@.lobbies,
                final(self)@.lobbies,
                old(self)@.lobbies.len() as int,
                build_end_notice(broadcaster@),
            ),
    {
        let since = self.since_build_phase_starts();
        let out = self.check_all_build_phase_timeouts_after(broadcaster, &since);
        assert forall|i: int| 0 <= i < old(self)@.lobbies.len() implies build_phase_checked(
            old(self)@.lobbies[i],
            #[trigger] self@.lobbies[i],
        ) by {
            assert(since@[i] is Some == old(self)@.lobbies[i].build_phase_start is Some);
            assert(build_phase_after(old(self)@.lobbies[i], self@.lobbies[i], since@[i]));
        }
        out
    }

    /// Explodes every bomb whose timer ran out, reading the clock, and
    /// announces the explosion, the round's result and the players' money.
    pub fn check_all_bomb_explosions(&mut self, broadcaster: &MessageBroadcaster) -> (out: Vec<Delivery>)
        requires
            old(self)@.wf(),
            broadcaster.wf(),
            old(self)@.scores_fit(),
        ensures
            final(self)@.wf(),
            final(self)@.lobbies.len() == old(self)@.lobbies.len(),
            final(self)@.deathmatch_lobby_id == old(self)@.deathmatch_lobby_id,
            final(self)@.team_selection_lobby_id == old(self)@.team_selection_lobby_id,
            forall|i: int|
                0 <= i < old(self)@.lobbies.len() ==> bomb_checked(
                    old(self)@.lobbies[i],
                    #[trigger] final(self)@.lobbies[i],
                ),
            deliveries_view(out@) == lobby_notices(
                old(self)@.lobbies,
                final(self)@.lobbies,
                old(self)@.lobbies.len() as int,
                explosion_notice(broadcaster@),
            ),
    {
        let since = self.since_plants();
        let out = self.check_all_bomb_explosions_after(broadcaster, &since);
        assert forall|i: int| 0 <= i < old(self)@.lobbies.len() implies bomb_checked(
            old(self)@.lobbies[i],
            #[trigger] self@.lobbies[i],
        ) by {
            assert(since@[i] is Some == old(self)@.lobbies[i].bomb_plant_time is Some);
            assert(bomb_after(old(self)@.lobbies[i], self@.lobbies[i], since@[i]));
        }
        out
    }

    /// Starts the next round of every lobby whose round ended long enough
    /// ago, reading the clock, and announces it.
    pub fn check_all_round_restarts(&mut self, broadcaster: &MessageBroadcaster) -> (out: Vec<Delivery>)
        requires
            old(self)@.wf(),
            broadcaster.wf(),
            old(self)@.round_numbers_fit(),
        ensures
            final(self)@.wf(),
            final(self)@.lobbies.len() == old(self)@.lobbies.len(),
            final(self)@.deathmatch_lobby_id == old(self)@.deathmatch_lobby_id,
            final(self)@.team_selection_lobby_id == old(self)@.team_selection_lobby_id,
            forall|i: int|
                0 <= i < old(self)@.lobbies.len() ==> restart_checked(
                    old(self)@.lobbies[i],
                    #[trigger] final(self)@.lobbies[i],
                ),
            deliveries_view(out@) == lobby_notices(
                old(self)@.lobbies,
                final(self)@.lobbies,
                old(self)@.lobbies.len() as int,
                round_start_notice(broadcaster@),
            ),
    {
        let since = self.since_round_ends();
        let seeds = self.carrier_seeds();
        let out = self.check_all_round_restarts_after(broadcaster, &since, &seeds);
        assert forall|i: int| 0 <= i < old(self)@.lobbies.len() implies restart_checked(
            old(self)@.lobbies[i],
            #[trigger] self@.lobbies[i],
        ) by {
            assert(since@[i] is Some == old(self)@.lobbies[i].round_end_time is Some);
            assert(restart_after(old(self)@.lobbies[i], self@.lobbies[i], since@[i], seeds@[i]));
        }
        out
    }

    /// Whether every round number still has room for one more round.
    pub fn round_numbers_in_range(&self) -> (fit: bool)
        ensures
            fit == self@.round_numbers_fit(),
    {
        let mut i: usize = 0;
        while i < self.lobbies.len()
            invariant
                i <= self.lobbies.len(),
                forall|j: int| 0 <= j < i ==> (#[trigger] self@.lobbies[j]).round_number < i32::MAX,
            decreases self.lobbies.len() - i,
        {
            assert(self@.lobbies[i as int] == self.lobbies@[i as int]@);
            if !(self.lobbies[i].round_number < i32::MAX) {
                return false;
            }
            i = i + 1;
        }
        true
    }
}

impl LobbyManager {
    /// Whether every counter that a message can advance still has room.
    pub fn counters_in_range(&self) -> (fit: bool)
        ensures
            fit == self@.counters_fit(),
    {
        let mut i: usize = 0;
        while i < self.lobbies.len()
            invariant
                i <= self.lobbies.len(),
                forall|j: int| 0 <= j < i ==> #[trigger] lobby_counters_fit(self@.lobbies[j]),
            decreases self.lobbies.len() - i,
        {
            assert(self@.lobbies[i as int] == self.lobbies@[i as int]@);
            if !lobby_counters_have_room(&self.lobbies[i]) {
                return false;
            }
            i = i + 1;
        }
        true
    }

    /// Whether every counter of the lobby `lobby_id` that a message can
    /// advance still has room; so when there is no such lobby.
    pub fn lobby_counters_in_range(&self, lobby_id: &str) -> (fit: bool)
        requires
            self@.wf(),
        ensures
            fit == (self@.has(lobby_id@) ==> lobby_counters_fit(self@.lobby(lobby_id@))),
    {
        let id = owned(lobby_id);
        match self.find(&id) {
            Some(i) => lobby_counters_have_room(&self.lobbies[i]),
            None => true,
        }
    }

    /// Whether every score still has room for one more point.
    pub fn scores_in_range(&self) -> (fit: bool)
        ensures
            fit == self@.scores_fit(),
    {
        let mut i: usize = 0;
        while i < self.lobbies.len()
            invariant
                i <= self.lobbies.len(),
                forall|j: int|
                    0 <= j < i ==> (#[trigger] self@.lobbies[j]).orange_score < i32::MAX
                        && self@.lobbies[j].red_score < i32::MAX,
            decreases self.lobbies.len() - i,
        {
            assert(self@.lobbies[i as int] == self.lobbies@[i as int]@);
            if !(self.lobbies[i].orange_score < i32::MAX && self.lobbies[i].red_score < i32::MAX) {
                return false;
            }
            i = i + 1;
        }
        true
    }
}

/// Whether every counter of `l` that a message can advance still has room.
fn lobby_counters_have_room(l: &Lobby) -> (fit: bool)
    ensures
        fit == lobby_counters_fit(l@),
{
    if !(l.orange_score < i32::MAX && l.red_score < i32::MAX && l.round_number < i32::MAX) {
        return false;
    }
    let mut k: usize = 0;
    while k < l.players.len()
        invariant
            k <= l.players.len(),
            forall|j: int|
                0 <= j < k ==> (#[trigger] l@.players[j]).kills < i32::MAX && l@.players[j].health
                    >= i32::MIN + HIT_DAMAGE,
        decreases l.players.len() - k,
    {
        if !(l.players[k].kills < i32::MAX && l.players[k].health >= i32::MIN + HIT_DAMAGE) {
            assert(l@.players[k as int] == l.players@[k as int]@);
            return false;
        }
        k = k + 1;
    }
    true
}

} // verus!
