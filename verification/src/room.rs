use vstd::prelude::*;
use std::collections::HashMap;
use crate::common::{Id, concat_teams, lemma_member_in_teams};
use crate::action::{Action, Outgoing};
use crate::lobby::User;
use crate::service::{MessageSink, RawService, UserEventListener};

verus! {

broadcast use {
    vstd::std_specs::hash::group_hash_axioms,
    vstd::seq_lib::lemma_seq_contains_after_push,
    vstd::seq_lib::lemma_seq_concat_contains_all_elements,
};

/// Taking out the one occurrence at `i` of a sequence without duplicates
/// leaves every other item and nothing else.
proof fn lemma_remove_once(s: Seq<Id>, i: int)
    requires
        s.no_duplicates(),
        0 <= i < s.len(),
    ensures
        s.remove(i).no_duplicates(),
        forall|x: Id| #[trigger] s.remove(i).contains(x) <==> (s.contains(x) && x != s[i]),
{
    let r = s.remove(i);
    assert forall|x: Id| #[trigger] r.contains(x) <==> (s.contains(x) && x != s[i]) by {
        if r.contains(x) {
            let k = choose|k: int| 0 <= k < r.len() && r[k] == x;
            if k < i {
                assert(s[k] == x);
            } else {
                assert(s[k + 1] == x);
            }
        }
        if s.contains(x) && x != s[i] {
            let k = choose|k: int| 0 <= k < s.len() && s[k] == x;
            if k < i {
                assert(r[k] == x);
            } else {
                assert(r[k - 1] == x);
            }
        }
    }
}

/// Every player of the room is listed among its members.
proof fn lemma_player_is_member(v: RoomView, id: Id)
    requires
        v.wf(),
        v.players.contains_key(id),
    ensures
        v.members().contains(id),
{
}

/// A user waiting in the room, on one of the two teams.
pub struct Player {
    pub id: Id,
    pub name: String,
    pub team: usize,
    pub ready: bool,
}

/// `a` and `b` describe the same player (names compared by their text).
pub open spec fn same_player(a: Player, b: Player) -> bool {
    &&& a.id == b.id
    &&& a.name@ == b.name@
    &&& a.team == b.team
    &&& a.ready == b.ready
}

impl Player {
    fn new(user: User, team: usize) -> (p: Self)
        ensures
            p.id == user.0,
            p.name == user.1,
            p.team == team,
            !p.ready,
    {
        let User(id, name) = user;
        Self { id, name, ready: false, team }
    }

    /// A copy of this player.
    pub fn copy(&self) -> (p: Self)
        ensures
            same_player(p, *self),
    {
        Player { id: self.id, name: self.name.clone(), team: self.team, ready: self.ready }
    }
}

/// What a user may tell the room.
pub enum Message {
    /// The user has opened the room page: send it the room data.
    Entered,
    /// The user is ready to play.
    Ready,
}

/// What the room shows: its players, in team order, and the two teams.
pub struct RoomData {
    pub players: Vec<Player>,
    pub teams: [Vec<Id>; 2],
}

/// The players and teams that leave the room to start a game.
pub struct Spawn {
    pub players: HashMap<Id, Player>,
    pub teams: [Vec<Id>; 2],
}

/// What handling a room event yields: the actions, and the players that
/// leave for a game, if they all became ready.
pub struct RoomOutcome {
    pub actions: Vec<Action>,
    pub spawn: Option<Spawn>,
}

/// The waiting room: users join one of two teams and start a game when all
/// of them are ready.
pub struct Room {
    players: HashMap<Id, Player>,
    teams: [Vec<Id>; 2],
}

pub struct RoomView {
    pub players: Map<Id, Player>,
    pub team0: Seq<Id>,
    pub team1: Seq<Id>,
}

impl RoomView {
    /// The members of team `t` (0 or 1).
    pub open spec fn team(self, t: int) -> Seq<Id> {
        if t == 0 { self.team0 } else { self.team1 }
    }

    /// Every player of the room, team 0 first.
    pub open spec fn members(self) -> Seq<Id> {
        self.team0 + self.team1
    }

    /// The players are exactly the members of the two teams, each on the
    /// team that its record names, and no one twice.
    pub open spec fn wf(self) -> bool {
        &&& self.team0.no_duplicates()
        &&& self.team1.no_duplicates()
        &&& forall|id: Id| #[trigger] self.team0.contains(id) ==> !self.team1.contains(id)
        &&& forall|id: Id| #[trigger] self.players.contains_key(id)
            <==> (self.team0.contains(id) || self.team1.contains(id))
        &&& forall|id: Id| #[trigger] self.players.contains_key(id) ==> {
            &&& self.players[id].id == id
            &&& self.players[id].team < 2
            &&& self.team(self.players[id].team as int).contains(id)
        }
    }

    /// Every player is ready.
    pub open spec fn all_ready(self) -> bool {
        forall|id: Id| #[trigger] self.players.contains_key(id) ==> self.players[id].ready
    }

    /// The team a newcomer joins: the smaller one, team 0 on a tie.
    pub open spec fn entering_team(self) -> usize {
        if self.team0.len() <= self.team1.len() { 0 } else { 1 }
    }

    /// The room after `user` entered it.
    pub open spec fn after_entering(self, user: User) -> RoomView {
        let t = self.entering_team();
        RoomView {
            players: self.players.insert(user.0, Player { id: user.0, name: user.1, team: t, ready: false }),
            team0: if t == 0 { self.team0.push(user.0) } else { self.team0 },
            team1: if t == 1 { self.team1.push(user.0) } else { self.team1 },
        }
    }

    /// The room after `id`, who is in it, marked themselves ready.
    pub open spec fn after_ready(self, id: Id) -> RoomView {
        let p = self.players[id];
        RoomView {
            players: self.players.insert(id, Player { id: p.id, name: p.name, team: p.team, ready: true }),
            ..self
        }
    }

    /// The room with no one in it.
    pub open spec fn empty() -> RoomView {
        RoomView { players: Map::empty(), team0: Seq::empty(), team1: Seq::empty() }
    }
}

/// `s2` is `s1` without its one occurrence of `x`, order kept.
pub open spec fn removed_once(s1: Seq<Id>, s2: Seq<Id>, x: Id) -> bool {
    exists|i: int| 0 <= i < s1.len() && s1[i] == x && s2 == s1.remove(i)
}

/// `d` shows the room `v`: its players in member order, and its teams.
pub open spec fn is_room_data(d: RoomData, v: RoomView) -> bool {
    &&& d.teams[0]@ == v.team0
    &&& d.teams[1]@ == v.team1
    &&& d.players@.len() == v.members().len()
    &&& forall|i: int| 0 <= i < d.players@.len()
        ==> same_player(#[trigger] d.players@[i], v.players[v.members()[i]])
}

/// `a` sends the room data of `v` to every player of `v`.
pub open spec fn broadcasts_room_data(a: Action, v: RoomView) -> bool {
    a matches Action::Send(to, Outgoing::RoomData(d)) && to@ == v.members() && is_room_data(d, v)
}

/// `a` sends the room data of `v` to `id` alone.
pub open spec fn sends_room_data(a: Action, id: Id, v: RoomView) -> bool {
    a matches Action::Send(to, Outgoing::RoomData(d)) && to@ == seq![id] && is_room_data(d, v)
}

/// `a` tells every player of `v` that the game starts.
pub open spec fn announces_game_start(a: Action, v: RoomView) -> bool {
    a matches Action::Send(to, Outgoing::GameStart) && to@ == v.members()
}

impl View for Room {
    type V = RoomView;

    closed spec fn view(&self) -> RoomView {
        RoomView { players: self.players@, team0: self.teams[0]@, team1: self.teams[1]@ }
    }
}

impl Room {
    /// An empty room.
    pub fn new() -> (r: Self)
        ensures
            r@ == RoomView::empty(),
            r@.wf(),
    {
        let r = Self { players: HashMap::new(), teams: [Vec::new(), Vec::new()] };
        assert(r@.players =~= Map::empty());
        assert(r@.team0 =~= Seq::<Id>::empty());
        assert(r@.team1 =~= Seq::<Id>::empty());
        r
    }

    /// Whether `id` is in the room.
    pub fn contains(&self, id: Id) -> (b: bool)
        ensures
            b == self@.players.contains_key(id),
    {
        self.players.contains_key(&id)
    }

    /// Every player of the room, team 0 first.
    pub fn member_list(&self) -> (v: Vec<Id>)
        ensures
            v@ == self@.members(),
    {
        concat_teams(&self.teams)
    }

    /// The data that the room shows.
    pub fn room_data(&self) -> (d: RoomData)
        requires
            self@.wf(),
        ensures
            is_room_data(d, self@),
    {
        let ids = self.member_list();
        let mut players: Vec<Player> = Vec::new();
        let mut i: usize = 0;
        while i < ids.len()
            invariant
                self@.wf(),
                ids@ == self@.members(),
                i <= ids@.len(),
                players@.len() == i,
                forall|j: int| 0 <= j < i ==> same_player(#[trigger] players@[j], self@.players[ids@[j]]),
            decreases ids@.len() - i,
        {
            let id = ids[i];
            proof {
                lemma_member_in_teams(self@.team0, self@.team1, i as int);
                assert(self@.players.contains_key(id));
            }
            match self.players.get(&id) {
                Some(p) => {
                    players.push(p.copy());
                },
                None => {
                    assert(false);
                },
            }
            i = i + 1;
        }
        let teams = [self.teams[0].clone(), self.teams[1].clone()];
        assert(teams[0]@ =~= self@.team0);
        assert(teams[1]@ =~= self@.team1);
        RoomData { players, teams }
    }

    /// Whether every player is ready.
    pub fn all_ready(&self) -> (b: bool)
        requires
            self@.wf(),
        ensures
            b == self@.all_ready(),
    {
        let ids = self.member_list();
        let mut i: usize = 0;
        while i < ids.len()
            invariant
                self@.wf(),
                ids@ == self@.members(),
                i <= ids@.len(),
                forall|j: int| 0 <= j < i ==> self@.players[#[trigger] ids@[j]].ready,
            decreases ids@.len() - i,
        {
            let id = ids[i];
            proof {
                lemma_member_in_teams(self@.team0, self@.team1, i as int);
                assert(self@.players.contains_key(id));
            }
            match self.players.get(&id) {
                Some(p) => {
                    if !p.ready {
                        assert(!self@.players[id].ready);
                        return false;
                    }
                },
                None => {
                    assert(false);
                },
            }
            i = i + 1;
        }
        proof {
            assert forall|id: Id| #[trigger] self@.players.contains_key(id) implies self@.players[id].ready by {
                lemma_player_is_member(self@, id);
                let k = choose|k: int| 0 <= k < ids@.len() && ids@[k] == id;
                assert(self@.players[ids@[k]].ready);
            }
        }
        true
    }

    /// `user` enters the room, on the smaller team; everyone in the room is
    /// sent the new room data.
    pub fn user_entering(&mut self, user: User) -> (acts: Vec<Action>)
        requires
            old(self)@.wf(),
            !old(self)@.players.contains_key(user.0),
        ensures
            final(self)@ == old(self)@.after_entering(user),
            final(self)@.wf(),
            acts@.len() == 1,
            broadcasts_room_data(acts@[0], final(self)@),
    {
        let id = user.0;
        let team: usize = if self.teams[0].len() <= self.teams[1].len() { 0 } else { 1 };
        let ghost old_view = self@;
        let ghost u = user;
        self.players.insert(id, Player::new(user, team));
        self.teams[team].push(id);
        assert(self@.players == old_view.after_entering(u).players);
        assert(self@.team0 =~= old_view.after_entering(u).team0);
        assert(self@.team1 =~= old_view.after_entering(u).team1);
        proof {
            lemma_entering_places_user(old_view, u);
        }
        let d = self.room_data();
        let to = self.member_list();
        let mut acts: Vec<Action> = Vec::new();
        acts.push(Action::Send(to, Outgoing::RoomData(d)));
        acts
    }

    /// Everyone leaves the room for a game: they are told that the game
    /// starts, and the room is left empty.
    fn spawn_game(&mut self) -> (r: (Action, Spawn))
        requires
            old(self)@.wf(),
        ensures
            final(self)@ == RoomView::empty(),
            announces_game_start(r.0, old(self)@),
            r.1.players@ == old(self)@.players,
            r.1.teams[0]@ == old(self)@.team0,
            r.1.teams[1]@ == old(self)@.team1,
    {
        let to = self.member_list();
        let start = Action::Send(to, Outgoing::GameStart);
        let mut players = HashMap::new();
        std::mem::swap(&mut players, &mut self.players);
        let mut teams: [Vec<Id>; 2] = [Vec::new(), Vec::new()];
        std::mem::swap(&mut teams, &mut self.teams);
        assert(self@.players =~= Map::empty());
        assert(self@.team0 =~= Seq::<Id>::empty());
        assert(self@.team1 =~= Seq::<Id>::empty());
        (start, Spawn { players, teams })
    }

    /// `id` says it is ready; everyone is sent the room data, and when
    /// every player is ready they all leave for a game.
    pub fn user_ready(&mut self, id: Id) -> (out: RoomOutcome)
        requires
            old(self)@.wf(),
        ensures
            final(self)@.wf(),
            room_ready_outcome(old(self)@, final(self)@, id, out),
    {
        let ghost old_view = self@;
        match self.players.remove(&id) {
            None => {
                assert(self@.players =~= old_view.players);
                RoomOutcome { actions: Vec::new(), spawn: None }
            },
            Some(p) => {
                let Player { id: pid, name, team, ready: _ } = p;
                self.players.insert(id, Player { id: pid, name, team, ready: true });
                assert(self@.players =~= old_view.after_ready(id).players);
                assert(self@ == old_view.after_ready(id));
                assert(self@.wf()) by {
                    assert forall|x: Id| #[trigger] self@.players.contains_key(x) implies {
                        &&& self@.players[x].id == x
                        &&& self@.players[x].team < 2
                        &&& self@.team(self@.players[x].team as int).contains(x)
                    } by {
                        assert(old_view.players.contains_key(x));
                    }
                }
                let d = self.room_data();
                let to = self.member_list();
                let mut actions: Vec<Action> = Vec::new();
                actions.push(Action::Send(to, Outgoing::RoomData(d)));
                if self.all_ready() {
                    let (start, sp) = self.spawn_game();
                    actions.push(start);
                    RoomOutcome { actions, spawn: Some(sp) }
                } else {
                    RoomOutcome { actions, spawn: None }
                }
            },
        }
    }

}

impl MessageSink for Room {
    type Message = Message;
    type Outcome = RoomOutcome;

    open spec fn sink_wf(&self) -> bool {
        self@.wf()
    }

    /// A message from `id`: `Entered` is answered with the room data,
    /// `Ready` marks the player ready.
    fn proc_message(&mut self, id: Id, msg: Message) -> (out: RoomOutcome)
        ensures
            final(self)@.wf(),
            msg is Entered ==> {
                &&& final(self)@ == old(self)@
                &&& out.actions@.len() == 1
                &&& sends_room_data(out.actions@[0], id, old(self)@)
                &&& out.spawn is None
            },
            msg is Ready ==> room_ready_outcome(old(self)@, final(self)@, id, out),
    {
        match msg {
            Message::Entered => {
                let d = self.room_data();
                let mut actions: Vec<Action> = Vec::new();
                let mut to: Vec<Id> = Vec::new();
                to.push(id);
                actions.push(Action::Send(to, Outgoing::RoomData(d)));
                RoomOutcome { actions, spawn: None }
            },
            Message::Ready => self.user_ready(id),
        }
    }
}

impl UserEventListener for Room {
    open spec fn listener_wf(&self) -> bool {
        self@.wf()
    }

    /// `id` leaves the room: it is taken off its team, and the remaining
    /// players are sent the new room data.
    fn user_disconnect(&mut self, id: Id) -> (acts: Vec<Action>)
        ensures
            final(self)@.wf(),
            disconnect_outcome(old(self)@, final(self)@, id, acts@),
    {
        let ghost old_view = self@;
        match self.players.remove(&id) {
            None => {
                assert(self@.players =~= old_view.players);
                Vec::new()
            },
            Some(p) => {
                let t = p.team;
                assert(old_view.players.contains_key(id) && old_view.players[id] == p);
                assert(old_view.team(t as int).contains(id));
                let mut i: usize = 0;
                while i < self.teams[t].len()
                    invariant
                        t < 2,
                        self.teams[t as int]@ == old_view.team(t as int),
                        old_view.team(t as int).contains(id),
                        i <= self.teams[t as int]@.len(),
                        forall|j: int| 0 <= j < i ==> self.teams[t as int]@[j] != id,
                    ensures
                        i < self.teams[t as int]@.len() && self.teams[t as int]@[i as int] == id,
                    decreases self.teams[t as int]@.len() - i,
                {
                    if self.teams[t][i] == id {
                        break;
                    }
                    i = i + 1;
                }
                assert(i < self.teams[t as int]@.len() && self.teams[t as int]@[i as int] == id);
                self.teams[t].remove(i);
                proof {
                    lemma_remove_once(old_view.team(t as int), i as int);
                    assert(self@.team(t as int) == old_view.team(t as int).remove(i as int));
                    assert(removed_once(old_view.team(t as int), self@.team(t as int), id));
                    assert(self@.team(1 - t) == old_view.team(1 - t));
                    assert forall|x: Id| #[trigger] self@.players.contains_key(x) implies {
                        &&& self@.players[x].id == x
                        &&& self@.players[x].team < 2
                        &&& self@.team(self@.players[x].team as int).contains(x)
                    } by {
                        assert(old_view.players.contains_key(x));
                    }
                }
                let d = self.room_data();
                let to = self.member_list();
                let mut acts: Vec<Action> = Vec::new();
                acts.push(Action::Send(to, Outgoing::RoomData(d)));
                acts
            },
        }
    }
}

impl RawService for Room {

}

/// What the departure of `id` does to the room: it leaves its team, and
/// the players who remain are sent the new room data.
pub open spec fn disconnect_outcome(before: RoomView, after: RoomView, id: Id, acts: Seq<Action>) -> bool {
    if before.players.contains_key(id) {
        let t = before.players[id].team as int;
        &&& after.players == before.players.remove(id)
        &&& removed_once(before.team(t), after.team(t), id)
        &&& after.team(1 - t) == before.team(1 - t)
        &&& acts.len() == 1
        &&& broadcasts_room_data(acts[0], after)
    } else {
        &&& after == before
        &&& acts.len() == 0
    }
}

/// Marking a player ready keeps the room well formed and its members.
pub proof fn lemma_after_ready_wf(v: RoomView, id: Id)
    requires
        v.wf(),
        v.players.contains_key(id),
    ensures
        v.after_ready(id).wf(),
        v.after_ready(id).members() == v.members(),
        v.after_ready(id).players.dom() == v.players.dom(),
{
    let w = v.after_ready(id);
    assert forall|x: Id| #[trigger] w.players.contains_key(x) implies {
        &&& w.players[x].id == x
        &&& w.players[x].team < 2
        &&& w.team(w.players[x].team as int).contains(x)
    } by {
        assert(v.players.contains_key(x));
    }
    assert(w.players.dom() =~= v.players.dom());
}

/// The players and teams that `sp` carries, as a room.
pub open spec fn spawn_view(sp: Spawn) -> RoomView {
    RoomView { players: sp.players@, team0: sp.teams[0]@, team1: sp.teams[1]@ }
}

/// `sp` carries the players and teams of the room `v`.
pub open spec fn is_spawn_of(sp: Spawn, v: RoomView) -> bool {
    spawn_view(sp) == v
}

/// What `user_ready` promises: `out` and `after` are what marking `id`
/// ready in `before` gives.
pub open spec fn room_ready_outcome(before: RoomView, after: RoomView, id: Id, out: RoomOutcome) -> bool {
    &&& !before.players.contains_key(id) ==> {
        &&& after == before
        &&& out.actions@.len() == 0
        &&& out.spawn is None
    }
    &&& before.players.contains_key(id) ==> {
        let mid = before.after_ready(id);
        &&& broadcasts_room_data(out.actions@[0], mid)
        &&& if mid.all_ready() {
            &&& after == RoomView::empty()
            &&& out.actions@.len() == 2
            &&& announces_game_start(out.actions@[1], mid)
            &&& out.spawn matches Some(sp) && is_spawn_of(sp, mid)
        } else {
            &&& after == mid
            &&& out.actions@.len() == 1
            &&& out.spawn is None
        }
    }
}

/// Entering keeps the teams balanced: when team 0 has as many players as
/// team 1 or one more, it still has after a newcomer joins.
pub proof fn lemma_entering_keeps_balance(v: RoomView, user: User)
    requires
        v.team1.len() <= v.team0.len() <= v.team1.len() + 1,
    ensures
        v.after_entering(user).team1.len() <= v.after_entering(user).team0.len()
            <= v.after_entering(user).team1.len() + 1,
{
}

/// A newcomer ends up in the room on exactly one team, ready to be marked
/// ready, and nobody else changes.
pub proof fn lemma_entering_places_user(v: RoomView, user: User)
    requires
        v.wf(),
        !v.players.contains_key(user.0),
    ensures
        v.after_entering(user).wf(),
        v.after_entering(user).players.contains_key(user.0),
        !v.after_entering(user).players[user.0].ready,
        v.after_entering(user).team(v.entering_team() as int).contains(user.0),
        !v.after_entering(user).team(1 - v.entering_team() as int).contains(user.0),
        forall|x: Id| x != user.0 && #[trigger] v.players.contains_key(x)
            ==> v.after_entering(user).players[x] == v.players[x],
{
    let w = v.after_entering(user);
    let id = user.0;
    assert(!v.team0.contains(id) && !v.team1.contains(id));
    assert forall|x: Id| #[trigger] w.players.contains_key(x) implies {
        &&& w.players[x].id == x
        &&& w.players[x].team < 2
        &&& w.team(w.players[x].team as int).contains(x)
    } by {
        if x != id {
            assert(v.players.contains_key(x));
        }
    }
}

/// A newcomer joins the team that has fewer players, team 0 on a tie: it
/// goes to the end of a team that had no more players than the other, and
/// the other team is left as it was.
pub proof fn lemma_newcomer_joins_smaller_team(v: RoomView, user: User)
    ensures
        ({
            let w = v.after_entering(user);
            let t = w.players[user.0].team as int;
            &&& w.players.contains_key(user.0)
            &&& t == 0 || t == 1
            &&& v.team(t).len() <= v.team(1 - t).len()
            &&& v.team0.len() == v.team1.len() ==> t == 0
            &&& w.team(t) == v.team(t).push(user.0)
            &&& w.team(1 - t) == v.team(1 - t)
        }),
{
}

} // verus!
