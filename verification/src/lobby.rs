use vstd::prelude::*;
use std::collections::HashMap;
use crate::common::{Id, concat_teams};
use crate::action::{Action, Outgoing, Route, Timer};
use crate::room::{self, Room, RoomView};
use crate::game::{self, Game, GameView};
use crate::service::{MessageSink, UserEventListener};
use crate::problem::{RawProblem, RawProblemView, raw_problem_ok, build_problems, is_shuffle_of};

verus! {

broadcast use {
    vstd::std_specs::hash::group_hash_axioms,
    vstd::seq_lib::lemma_seq_concat_contains_all_elements,
};

/// A user known to the lobby: its id and the name it gave.
pub struct User(pub Id, pub String);

impl User {
    /// A copy of this user.
    pub fn copy(&self) -> (u: User)
        ensures
            u.0 == self.0,
            u.1@ == self.1@,
    {
        User(self.0, self.1.clone())
    }
}

/// What a user may tell the lobby. Routing hands it the messages of users
/// who are in neither the room nor a game.
pub enum Message {
    /// The user introduces itself with a name.
    RequestInitial(String),
    /// The user asks to enter the waiting room.
    Join,
}

/// Where the lobby sends the messages of a user who is placed.
#[derive(PartialEq, Eq, Structural, Clone, Copy, Debug)]
pub enum Sink {
    Room,
    Game(usize),
}

/// A decoded message of a user, for the place it was decoded for.
pub enum Incoming {
    Lobby(Message),
    Room(room::Message),
    Game(game::Message),
}

/// The lobby: it knows the users, places each of them in the waiting room
/// or in a game, and routes their messages there.
pub struct Lobby {
    users: HashMap<Id, User>,
    sink_map: HashMap<Id, Sink>,
    room: Room,
    games: Vec<Game>,
    problems: Vec<RawProblem>,
}

pub struct LobbyView {
    pub users: Map<Id, User>,
    pub sinks: Map<Id, Sink>,
    pub room: RoomView,
    pub games: Seq<GameView>,
    pub problems: Seq<RawProblemView>,
}

impl LobbyView {
    /// The room and every game are well formed; a user is routed to the
    /// room exactly when it is in the room, and to a game only when it
    /// plays in it; every problem has an answer to mark correct.
    pub open spec fn wf(self) -> bool {
        &&& self.room.wf()
        &&& forall|g: int| 0 <= g < self.games.len() ==> {
            &&& (#[trigger] self.games[g]).wf()
            &&& self.games[g].index == g
        }
        &&& forall|id: Id| #[trigger] self.room.players.contains_key(id)
            <==> (self.sinks.contains_key(id) && self.sinks[id] == Sink::Room)
        &&& forall|id: Id| #[trigger] self.sinks.contains_key(id) && self.sinks[id] is Game ==> {
            let g = self.sinks[id]->Game_0 as int;
            &&& g < self.games.len()
            &&& self.games[g].players.contains_key(id)
        }
        &&& forall|id: Id| #[trigger] self.users.contains_key(id) ==> self.users[id].0 == id
        &&& self.problems.len() > 0
        &&& forall|i: int| 0 <= i < self.problems.len() ==> raw_problem_ok(#[trigger] self.problems[i])
    }

    /// Where the messages of `id` go.
    pub open spec fn route(self, id: Id) -> Route {
        if !self.sinks.contains_key(id) {
            Route::Lobby
        } else {
            match self.sinks[id] {
                Sink::Room => Route::Room,
                Sink::Game(g) => Route::Game(g),
            }
        }
    }
}

/// `ng` is the game numbered `g` that the players of the room `mid` start,
/// with the problems `raws` freshly shuffled.
pub open spec fn is_new_game(ng: GameView, g: int, mid: RoomView, raws: Seq<RawProblemView>) -> bool {
    &&& ng.index == g
    &&& ng.state == game::GameState::Preparing
    &&& ng.team0 == mid.team0
    &&& ng.team1 == mid.team1
    &&& ng.players.dom() == mid.players.dom()
    &&& forall|id: Id| #[trigger] mid.players.contains_key(id) ==> ng.players[id] == game::fresh_player(mid.players[id])
    &&& ng.problems.len() == raws.len()
    &&& forall|i: int| 0 <= i < raws.len() ==> is_shuffle_of(#[trigger] raws[i], ng.problems[i])
}

/// What a lobby message of `id` does.
pub open spec fn lobby_message_outcome(before: LobbyView, after: LobbyView, id: Id, msg: Message, acts: Seq<Action>) -> bool {
    match msg {
        Message::RequestInitial(name) => {
            &&& after == LobbyView { users: before.users.insert(id, User(id, name)), ..before }
            &&& acts.len() == 1
            &&& acts[0] matches Action::Send(to, Outgoing::Initial(x)) && to@ == seq![id] && x == id
        },
        Message::Join => if before.users.contains_key(id) && !before.room.players.contains_key(id) {
            &&& exists|u: User| #![trigger before.room.after_entering(u)] u.0 == id && u.1@ == before.users[id].1@
                && after == LobbyView {
                    sinks: before.sinks.insert(id, Sink::Room),
                    room: before.room.after_entering(u),
                    ..before
                }
            &&& acts.len() == 1
            &&& room::broadcasts_room_data(acts[0], after.room)
        } else {
            &&& after == before
            &&& acts.len() == 0
        },
    }
}

/// What a room message of `id`, who is in the room, does.
pub open spec fn room_message_outcome(before: LobbyView, after: LobbyView, id: Id, msg: room::Message, acts: Seq<Action>) -> bool {
    match msg {
        room::Message::Entered => {
            &&& after == before
            &&& acts.len() == 1
            &&& room::sends_room_data(acts[0], id, before.room)
        },
        room::Message::Ready => {
            let mid = before.room.after_ready(id);
            &&& room::broadcasts_room_data(acts[0], mid)
            &&& if mid.all_ready() {
                let g = before.games.len() as int;
                &&& after.users == before.users
                &&& after.problems == before.problems
                &&& after.room == RoomView::empty()
                &&& after.games.len() == g + 1
                &&& after.games.subrange(0, g) == before.games
                &&& is_new_game(after.games[g], g, mid, before.problems)
                &&& after.sinks.dom() == before.sinks.dom()
                &&& forall|x: Id| #[trigger] after.sinks.contains_key(x) ==> after.sinks[x] == if mid.players.contains_key(x) {
                    Sink::Game(g as usize)
                } else {
                    before.sinks[x]
                }
                &&& acts.len() == 3
                &&& room::announces_game_start(acts[1], mid)
                &&& acts[2] matches Action::GameSpawned(gi, ids) && gi == g && ids@ == mid.members()
            } else {
                &&& after == LobbyView { room: mid, ..before }
                &&& acts.len() == 1
            }
        },
    }
}

/// `after` is `before` with game `g` replaced by `gv`.
pub open spec fn with_game(before: LobbyView, g: int, gv: GameView) -> LobbyView {
    LobbyView { games: before.games.update(g, gv), ..before }
}

/// What a decoded message of `id` does: it reaches the place that `id` is
/// routed to, if it was decoded for that place, and is dropped otherwise.
pub open spec fn dispatch_outcome(before: LobbyView, after: LobbyView, id: Id, msg: Incoming, acts: Seq<Action>) -> bool {
    match (before.route(id), msg) {
        (Route::Lobby, Incoming::Lobby(m)) => lobby_message_outcome(before, after, id, m, acts),
        (Route::Room, Incoming::Room(m)) => room_message_outcome(before, after, id, m, acts),
        (Route::Game(g), Incoming::Game(m)) => {
            &&& after == with_game(before, g as int, after.games[g as int])
            &&& game::message_outcome(before.games[g as int], after.games[g as int], id, m, acts)
        },
        _ => {
            &&& after == before
            &&& acts.len() == 0
        },
    }
}

/// What the departure of `id` does: it is no longer routed anywhere, and
/// it leaves the room, or dies in its game.
pub open spec fn disconnect_outcome(before: LobbyView, after: LobbyView, id: Id, acts: Seq<Action>) -> bool {
    match before.route(id) {
        Route::Lobby => {
            &&& after == before
            &&& acts.len() == 0
        },
        Route::Room => {
            &&& after == LobbyView { sinks: before.sinks.remove(id), room: after.room, ..before }
            &&& room::disconnect_outcome(before.room, after.room, id, acts)
        },
        Route::Game(g) => {
            &&& after == LobbyView { sinks: before.sinks.remove(id), games: before.games.update(g as int, after.games[g as int]), ..before }
            &&& game::death_outcome(before.games[g as int], after.games[g as int], id, acts)
        },
    }
}

impl View for Lobby {
    type V = LobbyView;

    closed spec fn view(&self) -> LobbyView {
        LobbyView {
            users: self.users@,
            sinks: self.sink_map@,
            room: self.room@,
            games: self.games@.map_values(|g: Game| g@),
            problems: self.problems@.map_values(|p: RawProblem| p@),
        }
    }
}

impl Lobby {
    /// An empty lobby whose games will hand out `problems`.
    pub fn new(problems: Vec<RawProblem>) -> (l: Self)
        requires
            problems@.len() > 0,
            forall|i: int| 0 <= i < problems@.len() ==> raw_problem_ok(#[trigger] problems@[i]@),
        ensures
            l@.wf(),
            l@.users == Map::<Id, User>::empty(),
            l@.sinks == Map::<Id, Sink>::empty(),
            l@.room == RoomView::empty(),
            l@.games == Seq::<GameView>::empty(),
            l@.problems == problems@.map_values(|p: RawProblem| p@),
    {
        let l = Self {
            users: HashMap::new(),
            sink_map: HashMap::new(),
            room: Room::new(),
            games: Vec::new(),
            problems,
        };
        assert(l@.games =~= Seq::<GameView>::empty());
        l
    }

    /// Where the messages of `id` go.
    pub fn route(&self, id: Id) -> (r: Route)
        ensures
            r == self@.route(id),
    {
        match self.sink_map.get(&id) {
            None => Route::Lobby,
            Some(Sink::Room) => Route::Room,
            Some(Sink::Game(g)) => Route::Game(*g),
        }
    }

    /// A room message of `id`, who is in the room. When everyone in the
    /// room is ready, they start a new game and are routed to it.
    fn room_message(&mut self, id: Id, msg: room::Message) -> (acts: Vec<Action>)
        requires
            old(self)@.wf(),
            old(self)@.route(id) == Route::Room,
        ensures
            final(self)@.wf(),
            room_message_outcome(old(self)@, final(self)@, id, msg, acts@),
    {
        let ghost before = self@;
        assert(before.room.players.contains_key(id));
        let ghost is_ready = msg is Ready;
        let out = self.room.proc_message(id, msg);
        let room::RoomOutcome { actions: mut acts, spawn } = out;
        proof {
            if is_ready {
                room::lemma_after_ready_wf(before.room, id);
            }
        }
        match spawn {
            None => {
                proof {
                    assert(self@.games =~= before.games);
                    assert(self@.problems =~= before.problems);
                    assert(self@.room.players.dom() =~= before.room.players.dom());
                    assert forall|x: Id| #[trigger] self@.room.players.contains_key(x)
                        <==> (self@.sinks.contains_key(x) && self@.sinks[x] == Sink::Room) by {
                        assert(self@.room.players.contains_key(x) == before.room.players.contains_key(x));
                    }
                    assert(self@.room.wf());
                    assert(self@.sinks == before.sinks);
                    assert(self@.users == before.users);
                    assert forall|x: Id| #[trigger] self@.sinks.contains_key(x) && self@.sinks[x] is Game implies {
                        let g = self@.sinks[x]->Game_0 as int;
                        &&& g < self@.games.len()
                        &&& self@.games[g].players.contains_key(x)
                    } by {
                        assert(before.sinks.contains_key(x));
                    }
                }
                acts
            },
            Some(sp) => {
                assert(self@.users == before.users);
                let ghost mid = before.room.after_ready(id);
                assert(room::is_spawn_of(sp, mid));
                let g = self.games.len();
                let ids = concat_teams(&sp.teams);
                proof {
                    assert(before.problems =~= self.problems@.map_values(|p: RawProblem| p@));
                    assert forall|k: int| 0 <= k < self.problems@.len() implies raw_problem_ok(#[trigger] self.problems@[k]@) by {
                        assert(before.problems[k] == self.problems@[k]@);
                    }
                    assert(mid.wf());
                }
                let problems = build_problems(&self.problems);
                let game = Game::new(g, sp, problems);
                let ghost ng = game@;
                let ghost games_before = self.games@;
                assert(before.games =~= games_before.map_values(|gm: Game| gm@));
                self.games.push(game);
                assert(self.games@ == games_before.push(game));
                let ghost mid_sinks = self.sink_map@;
                let ghost games_now = self.games@;
                let ghost room_now = self.room@;
                let ghost users_now = self.users@;
                let ghost problems_now = self.problems@;
                let mut i: usize = 0;
                while i < ids.len()
                    invariant
                        self.games@ == games_now,
                        self.room@ == room_now,
                        self.users@ == users_now,
                        self.problems@ == problems_now,
                        i <= ids@.len(),
                        ids@ == mid.members(),
                        mid.wf(),
                        mid_sinks == before.sinks,
                        self.sink_map@.dom() == before.sinks.dom(),
                        forall|x: Id| #[trigger] mid.players.contains_key(x) ==> before.sinks.contains_key(x),
                        forall|x: Id| #[trigger] self.sink_map@.contains_key(x) ==> self.sink_map@[x] == if ids@.subrange(0, i as int).contains(x) {
                            Sink::Game(g)
                        } else {
                            before.sinks[x]
                        },
                    decreases ids@.len() - i,
                {
                    let x = ids[i];
                    proof {
                        assert(mid.members().contains(x));
                        assert(mid.team0.contains(x) || mid.team1.contains(x));
                        assert(mid.players.contains_key(x));
                        assert(ids@.subrange(0, i + 1) =~= ids@.subrange(0, i as int).push(x));
                    }
                    self.sink_map.insert(x, Sink::Game(g));
                    proof {
                        assert(self.sink_map@.dom() =~= before.sinks.dom());
                        assert forall|y: Id| #[trigger] self.sink_map@.contains_key(y) implies self.sink_map@[y] == if ids@.subrange(0, i + 1).contains(y) {
                            Sink::Game(g)
                        } else {
                            before.sinks[y]
                        } by {
                            vstd::seq_lib::lemma_seq_contains_after_push(ids@.subrange(0, i as int), x, y);
                        }
                    }
                    i = i + 1;
                }
                let ghost ids_view = ids@;
                acts.push(Action::GameSpawned(g, ids));
                proof {
                    assert(ids_view.subrange(0, ids_view.len() as int) =~= ids_view);
                    assert forall|x: Id| #[trigger] mid.players.contains_key(x) <==> ids_view.contains(x) by {
                        if mid.players.contains_key(x) {
                            assert(mid.team0.contains(x) || mid.team1.contains(x));
                        }
                        if ids_view.contains(x) {
                            assert(mid.team0.contains(x) || mid.team1.contains(x));
                        }
                    }
                    let after = self@;
                    assert(after.users == before.users);
                    assert forall|k: int| 0 <= k < after.games.len() implies #[trigger] after.games[k] == before.games.push(ng)[k] by {
                        if k < g {
                            assert(after.games[k] == games_before[k]@);
                        }
                    }
                    assert(after.games =~= before.games.push(ng));
                    assert(after.games.subrange(0, g as int) =~= before.games);
                    assert(after.problems =~= before.problems);
                    assert(ng.problems.len() == before.problems.len());
                    assert forall|k: int| 0 <= k < before.problems.len() implies is_shuffle_of(#[trigger] before.problems[k], ng.problems[k]) by {
                    }
                    assert(is_new_game(ng, g as int, mid, before.problems));
                    // the lobby stays well formed
                    assert forall|x: Id| #[trigger] after.room.players.contains_key(x)
                        <==> (after.sinks.contains_key(x) && after.sinks[x] == Sink::Room) by {
                        if after.sinks.contains_key(x) && after.sinks[x] == Sink::Room {
                            assert(!ids_view.contains(x));
                            assert(before.sinks[x] == Sink::Room);
                            assert(before.room.players.contains_key(x));
                            assert(mid.players.contains_key(x));
                        }
                    }
                    assert forall|x: Id| #[trigger] after.sinks.contains_key(x) && after.sinks[x] is Game implies {
                        let gg = after.sinks[x]->Game_0 as int;
                        &&& gg < after.games.len()
                        &&& after.games[gg].players.contains_key(x)
                    } by {
                        if ids_view.contains(x) {
                            assert(mid.players.contains_key(x));
                            assert(after.games[g as int] == ng);
                        } else {
                            assert(before.sinks[x] is Game);
                            let gg = before.sinks[x]->Game_0 as int;
                            assert(after.games[gg] == before.games[gg]);
                        }
                    }
                    assert forall|k: int| 0 <= k < after.games.len() implies {
                        &&& (#[trigger] after.games[k]).wf()
                        &&& after.games[k].index == k
                    } by {
                        if k < g {
                            assert(after.games[k] == before.games[k]);
                        }
                    }
                }
                acts
            },
        }
    }

    /// A game message of `id`, who plays in game `g`.
    fn game_message(&mut self, g: usize, id: Id, msg: game::Message) -> (acts: Vec<Action>)
        requires
            old(self)@.wf(),
            old(self)@.route(id) == Route::Game(g),
        ensures
            final(self)@.wf(),
            final(self)@ == with_game(old(self)@, g as int, final(self)@.games[g as int]),
            game::message_outcome(old(self)@.games[g as int], final(self)@.games[g as int], id, msg, acts@),
            game::keeps_frame(old(self)@.games[g as int], final(self)@.games[g as int]),
    {
        let ghost before = self@;
        assert(self@.sinks.contains_key(id) && self@.sinks[id] is Game);
        assert(before.games[g as int] == self.games@[g as int]@);
        let ghost gv_before = self.games@;
        let acts = self.games[g].proc_message(id, msg);
        proof {
            lemma_update_game(before, gv_before, self.games@, g as int);
        }
        acts
    }

    /// A decoded message of `id`: it reaches the place `id` is routed to,
    /// when it was decoded for that place.
    pub fn dispatch(&mut self, id: Id, msg: Incoming) -> (acts: Vec<Action>)
        requires
            old(self)@.wf(),
        ensures
            final(self)@.wf(),
            dispatch_outcome(old(self)@, final(self)@, id, msg, acts@),
    {
        let route = self.route(id);
        match (route, msg) {
            (Route::Lobby, Incoming::Lobby(m)) => self.proc_message(id, m),
            (Route::Room, Incoming::Room(m)) => self.room_message(id, m),
            (Route::Game(g), Incoming::Game(m)) => self.game_message(g, id, m),
            _ => Vec::new(),
        }
    }

    /// `id` disconnected: it is no longer routed anywhere; it leaves the
    /// room, or dies in its game.
    pub fn user_disconnect(&mut self, id: Id) -> (acts: Vec<Action>)
        requires
            old(self)@.wf(),
        ensures
            final(self)@.wf(),
            disconnect_outcome(old(self)@, final(self)@, id, acts@),
    {
        let ghost before = self@;
        match self.sink_map.remove(&id) {
            None => {
                assert(self@.sinks =~= before.sinks);
                assert(self@.games =~= before.games);
                assert(self@.problems =~= before.problems);
                Vec::new()
            },
            Some(Sink::Room) => {
                let acts = self.room.user_disconnect(id);
                proof {
                    assert(self@.games =~= before.games);
                    assert(self@.problems =~= before.problems);
                    assert(before.room.players.contains_key(id));
                    assert forall|x: Id| #[trigger] self@.room.players.contains_key(x)
                        <==> (self@.sinks.contains_key(x) && self@.sinks[x] == Sink::Room) by {
                        assert(self@.room.players == before.room.players.remove(id));
                        if x != id {
                            assert(before.room.players.contains_key(x) == self@.room.players.contains_key(x));
                        }
                    }
                    assert forall|x: Id| #[trigger] self@.sinks.contains_key(x) && self@.sinks[x] is Game implies {
                        let g = self@.sinks[x]->Game_0 as int;
                        &&& g < self@.games.len()
                        &&& self@.games[g].players.contains_key(x)
                    } by {
                        assert(before.sinks.contains_key(x));
                    }
                }
                acts
            },
            Some(Sink::Game(g)) => {
                assert(before.sinks.contains_key(id) && before.sinks[id] == Sink::Game(g));
                assert(before.games[g as int] == self.games@[g as int]@);
                let ghost gv_before = self.games@;
                let ghost sinks_now = self.sink_map@;
                let acts = self.games[g].user_disconnect(id);
                proof {
                    lemma_update_game(LobbyView { sinks: sinks_now, ..before }, gv_before, self.games@, g as int);
                    assert(!self@.room.players.contains_key(id));
                    assert forall|x: Id| #[trigger] self@.room.players.contains_key(x)
                        <==> (self@.sinks.contains_key(x) && self@.sinks[x] == Sink::Room) by {
                        if x != id {
                            assert(before.room.players.contains_key(x) == self@.room.players.contains_key(x));
                        }
                    }
                }
                acts
            },
        }
    }

    /// A timer of game `g` came due.
    pub fn game_timer(&mut self, g: usize, timer: Timer) -> (acts: Vec<Action>)
        requires
            old(self)@.wf(),
        ensures
            final(self)@.wf(),
            g < old(self)@.games.len() ==> {
                &&& final(self)@ == with_game(old(self)@, g as int, final(self)@.games[g as int])
                &&& game::timer_outcome(old(self)@.games[g as int], final(self)@.games[g as int], timer, acts@)
            },
            g >= old(self)@.games.len() ==> final(self)@ == old(self)@ && acts@.len() == 0,
    {
        if g >= self.games.len() {
            return Vec::new();
        }
        let ghost before = self@;
        assert(before.games[g as int] == self.games@[g as int]@);
        let ghost gv_before = self.games@;
        let acts = self.games[g].on_timer(timer);
        proof {
            lemma_update_game(before, gv_before, self.games@, g as int);
        }
        acts
    }

    /// Player `id` of game `g` died of its wounds.
    pub fn game_user_dead(&mut self, g: usize, id: Id) -> (acts: Vec<Action>)
        requires
            old(self)@.wf(),
        ensures
            final(self)@.wf(),
            g < old(self)@.games.len() ==> {
                &&& final(self)@ == with_game(old(self)@, g as int, final(self)@.games[g as int])
                &&& game::death_outcome(old(self)@.games[g as int], final(self)@.games[g as int], id, acts@)
            },
            g >= old(self)@.games.len() ==> final(self)@ == old(self)@ && acts@.len() == 0,
    {
        if g >= self.games.len() {
            return Vec::new();
        }
        let ghost before = self@;
        assert(before.games[g as int] == self.games@[g as int]@);
        let ghost gv_before = self.games@;
        let acts = self.games[g].user_disconnect(id);
        proof {
            lemma_update_game(before, gv_before, self.games@, g as int);
        }
        acts
    }

    /// The game of `id` and the players its shot may hit, when `id` is an
    /// alive player of a game.
    pub fn fire_candidates(&self, id: Id) -> (r: Option<(usize, Vec<Id>)>)
        requires
            self@.wf(),
        ensures
            r is Some <==> (self@.route(id) is Game && self@.games[self@.route(id)->Game_0 as int].can_fire(id)),
            r matches Some((g, c)) ==> self@.route(id) == Route::Game(g)
                && c@ == self@.games[g as int].fire_candidates(id),
    {
        match self.route(id) {
            Route::Game(g) => {
                assert(self@.sinks.contains_key(id) && self@.sinks[id] is Game);
                assert(self@.games[g as int] == self.games@[g as int]@);
                match self.games[g].fire_candidates(id) {
                    Some(c) => Some((g, c)),
                    None => None,
                }
            },
            _ => None,
        }
    }

    /// The players of game `g`, team 0 first, when there is such a game.
    pub fn game_member_list(&self, g: usize) -> (r: Option<Vec<Id>>)
        ensures
            r is Some <==> g < self@.games.len(),
            r matches Some(v) ==> v@ == self@.games[g as int].members(),
    {
        if g < self.games.len() {
            assert(self@.games[g as int] == self.games@[g as int]@);
            Some(self.games[g].member_list())
        } else {
            None
        }
    }
}

impl MessageSink for Lobby {
    type Message = Message;
    type Outcome = Vec<Action>;

    open spec fn sink_wf(&self) -> bool {
        self@.wf()
    }

    /// A lobby message of `id`. `Join` moves an introduced user into the
    /// room, also one routed to a game; for a user already in the room it
    /// does nothing, so that no one enters the room twice.
    fn proc_message(&mut self, id: Id, msg: Message) -> (acts: Vec<Action>)
        ensures
            final(self)@.wf(),
            lobby_message_outcome(old(self)@, final(self)@, id, msg, acts@),
    {
        let ghost before = self@;
        match msg {
            Message::RequestInitial(name) => {
                let mut to: Vec<Id> = Vec::new();
                to.push(id);
                let mut acts: Vec<Action> = Vec::new();
                acts.push(Action::Send(to, Outgoing::Initial(id)));
                self.users.insert(id, User(id, name));
                proof {
                    assert(self@.games =~= before.games);
                    assert(self@.problems =~= before.problems);
                    assert forall|x: Id| #[trigger] self@.users.contains_key(x) implies self@.users[x].0 == x by {
                        if x != id {
                            assert(before.users.contains_key(x));
                        }
                    }
                }
                acts
            },
            Message::Join => {
                let user = match self.users.get(&id) {
                    Some(u) => {
                        assert(before.users.contains_key(id) && before.users[id] == *u);
                        u.copy()
                    },
                    None => {
                        return Vec::new();
                    },
                };
                if self.room.contains(id) {
                    return Vec::new();
                }
                assert(user.0 == id);
                assert(!before.room.players.contains_key(id));
                self.sink_map.insert(id, Sink::Room);
                let acts = self.room.user_entering(user);
                proof {
                    assert(self@.games =~= before.games);
                    assert(self@.problems =~= before.problems);
                    assert(self@.room == before.room.after_entering(user));
                    assert forall|x: Id| #[trigger] self@.room.players.contains_key(x)
                        <==> (self@.sinks.contains_key(x) && self@.sinks[x] == Sink::Room) by {
                        if x != id {
                            assert(before.room.players.contains_key(x) == self@.room.players.contains_key(x));
                        }
                    }
                    assert forall|x: Id| #[trigger] self@.sinks.contains_key(x) && self@.sinks[x] is Game implies {
                        let g = self@.sinks[x]->Game_0 as int;
                        &&& g < self@.games.len()
                        &&& self@.games[g].players.contains_key(x)
                    } by {
                        assert(before.sinks.contains_key(x));
                    }
                }
                acts
            },
        }
    }
}

/// Replacing game `g` by a well-formed game with the same frame keeps the
/// lobby well formed.
proof fn lemma_update_game(before: LobbyView, old_games: Seq<Game>, new_games: Seq<Game>, g: int)
    requires
        before.wf(),
        0 <= g < old_games.len(),
        before.games == old_games.map_values(|gm: Game| gm@),
        new_games.len() == old_games.len(),
        forall|k: int| 0 <= k < old_games.len() && k != g ==> new_games[k] == old_games[k],
        new_games[g]@.wf(),
        game::keeps_frame(old_games[g]@, new_games[g]@),
    ensures
        with_game(before, g, new_games[g]@).wf(),
        new_games.map_values(|gm: Game| gm@) == before.games.update(g, new_games[g]@),
{
    let after = with_game(before, g, new_games[g]@);
    assert(new_games.map_values(|gm: Game| gm@) =~= before.games.update(g, new_games[g]@));
    assert forall|x: Id| #[trigger] after.sinks.contains_key(x) && after.sinks[x] is Game implies {
        let gg = after.sinks[x]->Game_0 as int;
        &&& gg < after.games.len()
        &&& after.games[gg].players.contains_key(x)
    } by {
        let gg = after.sinks[x]->Game_0 as int;
        if gg == g {
            assert(before.games[g].players.contains_key(x));
        }
    }
}

/// Once in a game, a user stays routed to that game: no decoded message,
/// of anyone, moves it, and only its own departure ends its routing.
pub proof fn lemma_game_route_stable(before: LobbyView, after: LobbyView, x: Id, id: Id, msg: Incoming, acts: Seq<Action>)
    requires
        before.wf(),
        before.route(x) is Game,
        dispatch_outcome(before, after, id, msg, acts) || (disconnect_outcome(before, after, id, acts) && id != x),
    ensures
        after.route(x) == before.route(x),
{
    if dispatch_outcome(before, after, id, msg, acts) {
        match (before.route(id), msg) {
            (Route::Room, Incoming::Room(m)) => {
                if m is Ready {
                    let mid = before.room.after_ready(id);
                    if mid.all_ready() {
                        assert(before.sinks.contains_key(x));
                        assert(!before.room.players.contains_key(x));
                        assert(mid.players.dom() == before.room.players.dom()) by {
                            assert(mid.players.dom() =~= before.room.players.dom());
                        }
                        assert(after.sinks.contains_key(x));
                    }
                }
            },
            _ => {},
        }
    }
}

/// Every user in the waiting room is routed to it, and every user routed to
/// a game plays in it: one place per user.
pub proof fn lemma_one_place_per_user(v: LobbyView, x: Id)
    requires
        v.wf(),
    ensures
        v.room.players.contains_key(x) <==> v.route(x) == Route::Room,
        v.route(x) matches Route::Game(g) ==> g < v.games.len() && v.games[g as int].players.contains_key(x),
{
}

/// Two introduced users who join one after the other, with no game started
/// in between, end up in the same waiting room, both routed to it, whether
/// they came from the lobby, from a game or were in the room already; when
/// the room was empty, the first is on team 0 and the second on team 1.
pub proof fn lemma_joins_share_the_room(
    before: LobbyView,
    mid: LobbyView,
    after: LobbyView,
    a: Id,
    b: Id,
    acts1: Seq<Action>,
    acts2: Seq<Action>,
)
    requires
        before.wf(),
        a != b,
        before.users.contains_key(a),
        before.users.contains_key(b),
        lobby_message_outcome(before, mid, a, Message::Join, acts1),
        lobby_message_outcome(mid, after, b, Message::Join, acts2),
    ensures
        after.sinks[a] == Sink::Room,
        after.sinks[b] == Sink::Room,
        after.room.players.contains_key(a),
        after.room.players.contains_key(b),
        before.room.players.is_empty() ==> after.room.team0 == seq![a] && after.room.team1 == seq![b],
{
    let ua = choose|u: User| #![trigger before.room.after_entering(u)] u.0 == a && u.1@ == before.users[a].1@
        && mid == LobbyView {
            sinks: before.sinks.insert(a, Sink::Room),
            room: before.room.after_entering(u),
            ..before
        };
    assert(mid.users == before.users);
    let ub = choose|u: User| #![trigger mid.room.after_entering(u)] u.0 == b && u.1@ == mid.users[b].1@
        && after == LobbyView {
            sinks: mid.sinks.insert(b, Sink::Room),
            room: mid.room.after_entering(u),
            ..mid
        };
    if before.room.players.is_empty() {
        assert forall|x: Id| !#[trigger] before.room.team0.contains(x) by {
            if before.room.team0.contains(x) {
                assert(before.room.players.contains_key(x));
            }
        }
        assert forall|x: Id| !#[trigger] before.room.team1.contains(x) by {
            if before.room.team1.contains(x) {
                assert(before.room.players.contains_key(x));
            }
        }
        if before.room.team0.len() > 0 {
            assert(before.room.team0.contains(before.room.team0[0]));
        }
        if before.room.team1.len() > 0 {
            assert(before.room.team1.contains(before.room.team1[0]));
        }
        assert(mid.room.team0 =~= seq![a]);
        assert(mid.room.team1 =~= Seq::<Id>::empty());
        assert(after.room.team0 =~= seq![a]);
        assert(after.room.team1 =~= seq![b]);
    }
}

} // verus!
