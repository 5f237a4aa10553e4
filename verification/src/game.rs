use vstd::prelude::*;
use std::collections::HashMap;
use boolinator::Boolinator;
use rand::Rng;
use crate::common::{Id, concat_teams, lemma_member_in_teams};
use crate::action::{Action, Outgoing, Timer};
use crate::problem::{Problem, ProblemView, texts};
use crate::room;
use crate::service::{MessageSink, RawService, UserEventListener};

verus! {

broadcast use {
    vstd::std_specs::hash::group_hash_axioms,
    vstd::seq_lib::lemma_seq_contains_after_push,
    vstd::seq_lib::lemma_seq_concat_contains_all_elements,
};

/// How long a game waits after it starts before handing out problems, and
/// after a shot before handing the shooter a new problem.
pub const NEXT_PROBLEM_DELAY_MS: u64 = 1000;

/// How long a player who answered wrong waits for a new problem.
pub const WRONG_ANSWER_DELAY_MS: u64 = 3000;

/// Where a player is in the round of answering and firing.
#[derive(PartialEq, Eq, Structural, Clone, Copy, Debug)]
pub enum PlayerState {
    /// Waiting for a problem.
    Waiting,
    /// Answering the problem with this index.
    Answering(usize),
    /// Answered right: may fire.
    Firing,
}

/// Whether the game has started (every player entered).
#[derive(PartialEq, Eq, Structural, Clone, Copy, Debug)]
pub enum GameState {
    Preparing,
    Started,
}

/// A player of a game. Its position and health are kept by the program
/// around the library.
pub struct Player {
    pub id: Id,
    pub name: String,
    pub team: usize,
    pub alive: bool,
    pub entered: bool,
    pub state: PlayerState,
}

/// What a game tells all of its players about each player.
pub struct PlayerInfo {
    pub id: Id,
    pub name: String,
    pub team: usize,
    pub alive: bool,
}

/// What a player may tell the game.
pub enum Message {
    /// The player has opened the game page.
    Entered,
    /// The player answers the current problem with this choice.
    Answer(usize),
    /// The player fired at this player, if any (the flight of the shot is
    /// computed around the library, from the candidates that
    /// `fire_candidates` names); only a candidate can be hit.
    Fire(Option<Id>),
}

/// One game: its players, the two teams, and the problems it hands out.
pub struct Game {
    index: usize,
    players: HashMap<Id, Player>,
    teams: [Vec<Id>; 2],
    state: GameState,
    problems: Vec<Problem>,
}

pub struct GameView {
    pub index: usize,
    pub players: Map<Id, Player>,
    pub team0: Seq<Id>,
    pub team1: Seq<Id>,
    pub state: GameState,
    pub problems: Seq<ProblemView>,
}

/// A player as it enters a game from the room: alive, not yet entered,
/// waiting for a problem.
pub open spec fn fresh_player(p: room::Player) -> Player {
    Player { id: p.id, name: p.name, team: p.team, alive: true, entered: false, state: PlayerState::Waiting }
}

/// `p` with a new state.
pub open spec fn with_state(p: Player, s: PlayerState) -> Player {
    Player { state: s, ..p }
}

/// `p` entered.
pub open spec fn with_entered(p: Player) -> Player {
    Player { entered: true, ..p }
}

/// `p` dead.
pub open spec fn with_dead(p: Player) -> Player {
    Player { alive: false, ..p }
}

/// The other team.
pub open spec fn other_team(t: usize) -> usize {
    if t == 0 { 1 } else { 0 }
}

impl GameView {
    pub open spec fn team(self, t: int) -> Seq<Id> {
        if t == 0 { self.team0 } else { self.team1 }
    }

    /// Every player of the game, team 0 first.
    pub open spec fn members(self) -> Seq<Id> {
        self.team0 + self.team1
    }

    pub open spec fn wf(self) -> bool {
        &&& self.team0.no_duplicates()
        &&& self.team1.no_duplicates()
        &&& forall|id: Id| #[trigger] self.team0.contains(id) ==> !self.team1.contains(id)
        &&& forall|id: Id| #[trigger] self.players.contains_key(id)
            <==> (self.team0.contains(id) || self.team1.contains(id))
        &&& forall|id: Id| #[trigger] self.players.contains_key(id) ==> {
            &&& self.players[id].id == id
            &&& self.players[id].team < 2
            &&& self.team(self.players[id].team as int).contains(id)
            &&& (self.players[id].state matches PlayerState::Answering(p) ==> p < self.problems.len())
        }
        &&& self.problems.len() > 0
    }

    /// The game with player `id` replaced by `p`.
    pub open spec fn put(self, id: Id, p: Player) -> GameView {
        GameView { players: self.players.insert(id, p), ..self }
    }

    pub open spec fn all_entered(self) -> bool {
        forall|id: Id| #[trigger] self.players.contains_key(id) ==> self.players[id].entered
    }

    /// Every player of team `t` is dead.
    pub open spec fn team_dead(self, t: usize) -> bool {
        forall|id: Id| #[trigger] self.players.contains_key(id) && self.players[id].team == t
            ==> !self.players[id].alive
    }

    /// `id` is in the game and alive, so it may fire.
    pub open spec fn can_fire(self, id: Id) -> bool {
        self.players.contains_key(id) && self.players[id].alive
    }

    /// The alive players of the team opposing `id`, in member order.
    pub open spec fn fire_candidates(self, id: Id) -> Seq<Id> {
        self.members().filter(|x: Id| self.players[x].alive && self.players[x].team != self.players[id].team)
    }
}

/// `info` tells what `p` shows of itself.
pub open spec fn is_info_of(info: PlayerInfo, p: Player) -> bool {
    &&& info.id == p.id
    &&& info.name@ == p.name@
    &&& info.team == p.team
    &&& info.alive == p.alive
}

/// `a` sends every player of `v` what the game shows of its players.
pub open spec fn broadcasts_players_data(a: Action, v: GameView) -> bool {
    a matches Action::Send(to, Outgoing::PlayersData(g, infos)) && {
        &&& to@ == v.members()
        &&& g == v.index
        &&& infos@.len() == v.members().len()
        &&& forall|i: int| 0 <= i < infos@.len() ==> is_info_of(#[trigger] infos@[i], v.players[v.members()[i]])
    }
}

/// `a` asks for `timer` to come back to the game `v` after `ms` milliseconds.
pub open spec fn schedules(a: Action, v: GameView, ms: u64, timer: Timer) -> bool {
    a == Action::Schedule(v.index, ms, timer)
}

/// `a` sends the problem with index `p` of `v` to `id` alone.
pub open spec fn sends_problem(a: Action, v: GameView, id: Id, p: int) -> bool {
    a matches Action::Send(to, Outgoing::Problem(q, ans)) && {
        &&& to@ == seq![id]
        &&& q@ == v.problems[p].question
        &&& texts(ans@) == v.problems[p].answers
    }
}

/// The actions of an optional result: none when there is no result.
pub open spec fn opt_seq(r: Option<Vec<Action>>) -> Seq<Action> {
    match r {
        Some(acts) => acts@,
        None => Seq::empty(),
    }
}

/// `id` is in the game and waiting for a problem.
pub open spec fn is_waiting(v: GameView, id: Id) -> bool {
    v.players.contains_key(id) && v.players[id].state == PlayerState::Waiting
}

/// `id` is in the game and answering a problem.
pub open spec fn is_answering(v: GameView, id: Id) -> bool {
    v.players.contains_key(id) && v.players[id].state is Answering
}

/// What handing problem `p` to `id` does: only a waiting player gets one.
pub open spec fn assign_outcome(before: GameView, after: GameView, id: Id, p: int, acts: Seq<Action>) -> bool {
    if is_waiting(before, id) {
        &&& after == before.put(id, with_state(before.players[id], PlayerState::Answering(p as usize)))
        &&& acts.len() == 1
        &&& sends_problem(acts[0], before, id, p)
    } else {
        &&& after == before
        &&& acts.len() == 0
    }
}

/// What answering `answer` does for `id`.
pub open spec fn answer_outcome(before: GameView, after: GameView, id: Id, answer: usize, acts: Seq<Action>) -> bool {
    if is_answering(before, id) {
        let p = before.players[id].state->Answering_0;
        let right = answer == before.problems[p as int].correct;
        &&& after == before.put(
            id,
            with_state(before.players[id], if right { PlayerState::Firing } else { PlayerState::Waiting }),
        )
        &&& acts.len() == 2
        &&& acts[0] matches Action::Send(to, Outgoing::JudgeResult(b)) && to@ == seq![id] && b == right
        &&& if right {
            acts[1] matches Action::Send(to, Outgoing::StartFire) && to@ == seq![id]
        } else {
            schedules(acts[1], before, WRONG_ANSWER_DELAY_MS, Timer::Assign(id))
        }
    } else {
        &&& after == before
        &&& acts.len() == 0
    }
}

/// The player a shot of `id` aimed at `target` hits: `target` when it is
/// one of the players the shot may hit, and nobody otherwise.
pub open spec fn hit_target(v: GameView, id: Id, target: Option<Id>) -> Option<Id> {
    match target {
        Some(t) => if v.fire_candidates(id).contains(t) { Some(t) } else { None },
        None => None,
    }
}

/// What a shot of `id` aimed at `target` does.
pub open spec fn fire_outcome(before: GameView, after: GameView, id: Id, target: Option<Id>, acts: Seq<Action>) -> bool {
    if before.can_fire(id) {
        &&& after == before.put(id, with_state(before.players[id], PlayerState::Waiting))
        &&& acts.len() == 2
        &&& acts[0] matches Action::Send(to, Outgoing::FireResult(g, shooter, t)) && {
            &&& to@ == before.members()
            &&& g == before.index
            &&& shooter == id
            &&& t == hit_target(before, id, target)
        }
        &&& schedules(acts[1], before, NEXT_PROBLEM_DELAY_MS, Timer::Assign(id))
    } else {
        &&& after == before
        &&& acts.len() == 0
    }
}

/// What the death of `id` does: when its whole team is dead, the other
/// team wins.
pub open spec fn death_outcome(before: GameView, after: GameView, id: Id, acts: Seq<Action>) -> bool {
    if before.players.contains_key(id) {
        let t = before.players[id].team;
        &&& after == before.put(id, with_dead(before.players[id]))
        &&& if after.team_dead(t) {
            &&& acts.len() == 1
            &&& acts[0] matches Action::Send(to, Outgoing::TeamWin(w)) && to@ == before.members() && w == other_team(t)
        } else {
            acts.len() == 0
        }
    } else {
        &&& after == before
        &&& acts.len() == 0
    }
}

/// What the entry of `id` does: when every player has entered, the game
/// starts.
pub open spec fn enter_outcome(before: GameView, after: GameView, id: Id, acts: Seq<Action>) -> bool {
    if before.players.contains_key(id) {
        let mid = before.put(id, with_entered(before.players[id]));
        if mid.all_entered() {
            let started = GameView { state: GameState::Started, ..mid };
            &&& after == started
            &&& acts.len() == 2
            &&& broadcasts_players_data(acts[0], started)
            &&& schedules(acts[1], started, NEXT_PROBLEM_DELAY_MS, Timer::AssignAll)
        } else {
            &&& after == mid
            &&& acts.len() == 0
        }
    } else {
        &&& after == before
        &&& acts.len() == 0
    }
}

/// What handing a problem to every waiting player does: each of them, in
/// member order, gets some problem of the game.
pub open spec fn assign_all_outcome(before: GameView, after: GameView, acts: Seq<Action>) -> bool {
    let ws = before.members().filter(|x: Id| is_waiting(before, x));
    &&& after == GameView { players: after.players, ..before }
    &&& after.players.dom() == before.players.dom()
    &&& forall|id: Id| #[trigger] before.players.contains_key(id) ==> if is_waiting(before, id) {
        &&& after.players[id].state is Answering
        &&& after.players[id].state->Answering_0 < before.problems.len()
        &&& after.players[id] == with_state(before.players[id], after.players[id].state)
    } else {
        after.players[id] == before.players[id]
    }
    &&& acts.len() == ws.len()
    &&& forall|k: int| 0 <= k < ws.len() ==> #[trigger] sends_problem(
        acts[k],
        before,
        ws[k],
        after.players[ws[k]].state->Answering_0 as int,
    )
}

/// What a timer of the game does when it comes due.
pub open spec fn timer_outcome(before: GameView, after: GameView, timer: Timer, acts: Seq<Action>) -> bool {
    match timer {
        Timer::Assign(id) => exists|p: usize| p < before.problems.len()
            && #[trigger] assign_outcome(before, after, id, p as int, acts),
        Timer::AssignAll => assign_all_outcome(before, after, acts),
    }
}

/// What a message of `id` does to the game.
pub open spec fn message_outcome(before: GameView, after: GameView, id: Id, msg: Message, acts: Seq<Action>) -> bool {
    match msg {
        Message::Entered => enter_outcome(before, after, id, acts),
        Message::Answer(a) => answer_outcome(before, after, id, a, acts),
        Message::Fire(target) => fire_outcome(before, after, id, target, acts),
    }
}

/// Every player of a well-formed game is one of its members.
proof fn lemma_member_of_team(v: GameView, id: Id)
    requires
        v.wf(),
        v.players.contains_key(id),
    ensures
        v.members().contains(id),
{
}

/// `after` is `before` with only player records changed: same index,
/// teams, problems and set of players.
pub open spec fn keeps_frame(before: GameView, after: GameView) -> bool {
    &&& after.index == before.index
    &&& after.team0 == before.team0
    &&& after.team1 == before.team1
    &&& after.problems == before.problems
    &&& after.players.dom() == before.players.dom()
}

/// The members of a well-formed game are all different.
proof fn lemma_members_no_dup(v: GameView)
    requires
        v.wf(),
    ensures
        v.members().no_duplicates(),
{
    let m = v.members();
    assert forall|i: int, j: int| 0 <= i < m.len() && 0 <= j < m.len() && i != j implies m[i] != m[j] by {
        let n0 = v.team0.len() as int;
        if i < n0 && j >= n0 {
            assert(v.team0.contains(m[i]));
            assert(v.team1.contains(m[j]));
        } else if i >= n0 && j < n0 {
            assert(v.team1.contains(m[i]));
            assert(v.team0.contains(m[j]));
        } else if i < n0 {
            assert(m[i] == v.team0[i] && m[j] == v.team0[j]);
        } else {
            assert(m[i] == v.team1[i - n0] && m[j] == v.team1[j - n0]);
        }
    }
}

/// Whether `x` is in `v`.
fn vec_contains(v: &Vec<Id>, x: Id) -> (b: bool)
    ensures
        b == v@.contains(x),
{
    let mut i: usize = 0;
    while i < v.len()
        invariant
            i <= v@.len(),
            forall|j: int| 0 <= j < i ==> v@[j] != x,
        decreases v@.len() - i,
    {
        if v[i] == x {
            assert(v@[i as int] == x);
            return true;
        }
        i = i + 1;
    }
    false
}

/// `boolinator`'s `Boolinator::as_option`: `Some(())` when `b` holds, else `None`.
#[verifier::external_body]
fn bool_as_option(b: bool) -> (r: Option<()>)
    ensures
        r is Some <==> b,
{
    b.as_option()
}

/// `rand`'s `Rng::gen_range(0, n)` with the thread-local generator: a
/// random index below `n`. It panics when `n` is 0, which `requires` rules out.
#[verifier::external_body]
fn random_below(n: usize) -> (r: usize)
    requires
        n > 0,
    ensures
        r < n,
{
    rand::thread_rng().gen_range(0, n)
}

/// Copies of a list of strings.
fn clone_strings(v: &Vec<String>) -> (r: Vec<String>)
    ensures
        texts(r@) == texts(v@),
{
    let mut r: Vec<String> = Vec::new();
    let mut i: usize = 0;
    while i < v.len()
        invariant
            i <= v@.len(),
            r@.len() == i,
            forall|j: int| 0 <= j < i ==> #[trigger] r@[j]@ == v@[j]@,
        decreases v@.len() - i,
    {
        r.push(v[i].clone());
        i = i + 1;
    }
    assert(texts(r@) =~= texts(v@));
    r
}

/// Filtering a sequence with one more item at its end.
proof fn lemma_filter_push(s: Seq<Id>, pred: spec_fn(Id) -> bool, x: Id)
    ensures
        s.push(x).filter(pred) == if pred(x) { s.filter(pred).push(x) } else { s.filter(pred) },
{
    reveal(Seq::filter);
    assert(s.push(x).drop_last() =~= s);
}

/// Replacing one player's record by one with the same id and team keeps
/// the game well formed, as long as its state names a problem that exists.
proof fn lemma_put_wf(v: GameView, id: Id, p: Player)
    requires
        v.wf(),
        v.players.contains_key(id),
        p.id == id,
        p.team == v.players[id].team,
        p.state matches PlayerState::Answering(k) ==> k < v.problems.len(),
    ensures
        v.put(id, p).wf(),
        v.put(id, p).members() == v.members(),
{
    let w = v.put(id, p);
    assert forall|x: Id| #[trigger] w.players.contains_key(x) implies {
        &&& w.players[x].id == x
        &&& w.players[x].team < 2
        &&& w.team(w.players[x].team as int).contains(x)
        &&& (w.players[x].state matches PlayerState::Answering(k) ==> k < w.problems.len())
    } by {
        assert(v.players.contains_key(x));
    }
}

impl View for Game {
    type V = GameView;

    closed spec fn view(&self) -> GameView {
        GameView {
            index: self.index,
            players: self.players@,
            team0: self.teams[0]@,
            team1: self.teams[1]@,
            state: self.state,
            problems: self.problems@.map_values(|p: Problem| p@),
        }
    }
}

impl Game {
    /// A new game, numbered `index`, for the players and teams that left the
    /// room, handing out `problems`.
    pub fn new(index: usize, spawn: room::Spawn, problems: Vec<Problem>) -> (g: Self)
        requires
            problems@.len() > 0,
            room::spawn_view(spawn).wf(),
        ensures
            g@.wf(),
            g@.index == index,
            g@.state == GameState::Preparing,
            g@.team0 == spawn.teams[0]@,
            g@.team1 == spawn.teams[1]@,
            g@.problems == problems@.map_values(|p: Problem| p@),
            g@.players.dom() == spawn.players@.dom(),
            forall|id: Id| #[trigger] spawn.players@.contains_key(id)
                ==> g@.players[id] == fresh_player(spawn.players@[id]),
    {
        let ghost rv = room::spawn_view(spawn);
        let room::Spawn { players: mut room_players, teams } = spawn;
        let ghost orig = room_players@;
        let mut players: HashMap<Id, Player> = HashMap::new();
        let mut t: usize = 0;
        while t < 2
            invariant
                t <= 2,
                rv.wf(),
                orig == rv.players,
                teams[0]@ == rv.team0,
                teams[1]@ == rv.team1,
                // players moved so far: those of the teams before `t`
                forall|id: Id| #[trigger] players@.contains_key(id)
                    <==> (orig.contains_key(id) && orig[id].team < t),
                forall|id: Id| #[trigger] room_players@.contains_key(id)
                    <==> (orig.contains_key(id) && orig[id].team >= t),
                forall|id: Id| #[trigger] room_players@.contains_key(id) ==> room_players@[id] == orig[id],
                forall|id: Id| #[trigger] players@.contains_key(id) ==> players@[id] == fresh_player(orig[id]),
            decreases 2 - t,
        {
            let mut i: usize = 0;
            while i < teams[t].len()
                invariant
                    t < 2,
                    rv.wf(),
                    orig == rv.players,
                    teams[0]@ == rv.team0,
                    teams[1]@ == rv.team1,
                    i <= teams[t as int]@.len(),
                    forall|id: Id| #[trigger] players@.contains_key(id)
                        <==> (orig.contains_key(id) && (orig[id].team < t
                            || (orig[id].team == t && teams[t as int]@.subrange(0, i as int).contains(id)))),
                    forall|id: Id| #[trigger] room_players@.contains_key(id)
                        <==> (orig.contains_key(id) && (orig[id].team > t
                            || (orig[id].team == t && !teams[t as int]@.subrange(0, i as int).contains(id)))),
                    forall|id: Id| #[trigger] room_players@.contains_key(id) ==> room_players@[id] == orig[id],
                    forall|id: Id| #[trigger] players@.contains_key(id) ==> players@[id] == fresh_player(orig[id]),
                decreases teams[t as int]@.len() - i,
            {
                let id = teams[t][i];
                proof {
                    assert(rv.team(t as int).contains(id));
                    assert(orig.contains_key(id));
                    assert(orig[id].team == t) by {
                        if orig[id].team != t {
                            assert(rv.team(orig[id].team as int).contains(id));
                        }
                    }
                    assert(!teams[t as int]@.subrange(0, i as int).contains(id));
                    assert(room_players@.contains_key(id));
                }
                match room_players.remove(&id) {
                    Some(p) => {
                        let room::Player { id: pid, name, team, ready: _ } = p;
                        players.insert(
                            id,
                            Player { id: pid, name, team, alive: true, entered: false, state: PlayerState::Waiting },
                        );
                    },
                    None => {
                        assert(false);
                    },
                }
                proof {
                    let s_old = teams[t as int]@.subrange(0, i as int);
                    let s_new = teams[t as int]@.subrange(0, i + 1);
                    assert(s_new =~= s_old.push(id));
                }
                i = i + 1;
            }
            assert(teams[t as int]@.subrange(0, i as int) =~= teams[t as int]@);
            proof {
                assert forall|id: Id| #[trigger] players@.contains_key(id)
                    <==> (orig.contains_key(id) && orig[id].team < t + 1) by {
                    if orig.contains_key(id) && orig[id].team == t {
                        assert(rv.team(t as int).contains(id));
                    }
                }
                assert forall|id: Id| #[trigger] room_players@.contains_key(id)
                    <==> (orig.contains_key(id) && orig[id].team >= t + 1) by {
                    if orig.contains_key(id) && orig[id].team == t {
                        assert(rv.team(t as int).contains(id));
                    }
                }
            }
            t = t + 1;
        }
        let g = Game { index, players, teams, state: GameState::Preparing, problems };
        proof {
            assert(g@.players.dom() =~= orig.dom());
            assert forall|id: Id| #[trigger] g@.players.contains_key(id) implies {
                &&& g@.players[id].id == id
                &&& g@.players[id].team < 2
                &&& g@.team(g@.players[id].team as int).contains(id)
                &&& (g@.players[id].state matches PlayerState::Answering(k) ==> k < g@.problems.len())
            } by {
                assert(orig.contains_key(id));
            }
        }
        g
    }

    /// The index of this game.
    pub fn index(&self) -> (i: usize)
        ensures
            i == self@.index,
    {
        self.index
    }

    /// Every player of the game, team 0 first.
    pub fn member_list(&self) -> (v: Vec<Id>)
        ensures
            v@ == self@.members(),
    {
        concat_teams(&self.teams)
    }

    /// Sets the state of player `id`, who is in the game.
    fn set_state(&mut self, id: Id, s: PlayerState)
        requires
            old(self)@.wf(),
            old(self)@.players.contains_key(id),
            s matches PlayerState::Answering(k) ==> k < old(self)@.problems.len(),
        ensures
            final(self)@ == old(self)@.put(id, with_state(old(self)@.players[id], s)),
            final(self)@.wf(),
            keeps_frame(old(self)@, final(self)@),
    {
        let ghost v = self@;
        match self.players.remove(&id) {
            Some(p) => {
                let Player { id: pid, name, team, alive, entered, state: _ } = p;
                self.players.insert(id, Player { id: pid, name, team, alive, entered, state: s });
            },
            None => {
                assert(false);
            },
        }
        proof {
            lemma_put_wf(v, id, with_state(v.players[id], s));
            assert(self@.players =~= v.put(id, with_state(v.players[id], s)).players);
            assert(self@.players.dom() =~= v.players.dom());
        }
    }

    /// Hands the problem with index `prob_id` to `id`, if it is waiting for one.
    pub fn assign_problem_with(&mut self, id: Id, prob_id: usize) -> (r: Option<Vec<Action>>)
        requires
            old(self)@.wf(),
            prob_id < old(self)@.problems.len(),
        ensures
            final(self)@.wf(),
            r is Some <==> is_waiting(old(self)@, id),
            assign_outcome(old(self)@, final(self)@, id, prob_id as int, opt_seq(r)),
            keeps_frame(old(self)@, final(self)@),
    {
        let waiting = match self.players.get(&id) {
            Some(p) => p.state == PlayerState::Waiting,
            None => false,
        };
        if !waiting {
            return None;
        }
        let ghost v = self@;
        let q = self.problems[prob_id].question.clone();
        let ans = clone_strings(&self.problems[prob_id].answers);
        self.set_state(id, PlayerState::Answering(prob_id));
        let mut to: Vec<Id> = Vec::new();
        to.push(id);
        let mut acts: Vec<Action> = Vec::new();
        acts.push(Action::Send(to, Outgoing::Problem(q, ans)));
        assert(v.problems[prob_id as int] == self.problems@[prob_id as int]@);
        Some(acts)
    }

    /// Hands a random problem to `id`, if it is waiting for one.
    pub fn assign_problem(&mut self, id: Id) -> (r: Option<Vec<Action>>)
        requires
            old(self)@.wf(),
        ensures
            final(self)@.wf(),
            r is Some <==> is_waiting(old(self)@, id),
            exists|p: usize| p < old(self)@.problems.len()
                && #[trigger] assign_outcome(old(self)@, final(self)@, id, p as int, opt_seq(r)),
            keeps_frame(old(self)@, final(self)@),
    {
        let waiting = match self.players.get(&id) {
            Some(p) => p.state == PlayerState::Waiting,
            None => false,
        };
        if !waiting {
            assert(assign_outcome(self@, self@, id, 0usize as int, opt_seq(None)));
            return None;
        }
        let prob_id = random_below(self.problems.len());
        let r = self.assign_problem_with(id, prob_id);
        assert(assign_outcome(old(self)@, self@, id, prob_id as int, opt_seq(r)));
        assert(prob_id < old(self)@.problems.len());
        r
    }

    /// `id` answers its current problem with `answer`: it is told whether it
    /// was right; if so it may fire, otherwise it gets a new problem later.
    pub fn answer(&mut self, id: Id, answer: usize) -> (r: Option<Vec<Action>>)
        requires
            old(self)@.wf(),
        ensures
            final(self)@.wf(),
            r is Some <==> is_answering(old(self)@, id),
            answer_outcome(old(self)@, final(self)@, id, answer, opt_seq(r)),
            keeps_frame(old(self)@, final(self)@),
    {
        let prob_id = match self.players.get(&id) {
            Some(p) => match p.state {
                PlayerState::Answering(k) => k,
                _ => {
                    return None;
                },
            },
            None => {
                return None;
            },
        };
        let ghost v = self@;
        assert(v.players.contains_key(id));
        let right = answer == self.problems[prob_id].correct;
        assert(right == (answer == v.problems[prob_id as int].correct));
        let mut to: Vec<Id> = Vec::new();
        to.push(id);
        let mut acts: Vec<Action> = Vec::new();
        acts.push(Action::Send(to, Outgoing::JudgeResult(right)));
        if right {
            self.set_state(id, PlayerState::Firing);
            let mut to2: Vec<Id> = Vec::new();
            to2.push(id);
            acts.push(Action::Send(to2, Outgoing::StartFire));
        } else {
            self.set_state(id, PlayerState::Waiting);
            acts.push(Action::Schedule(self.index, WRONG_ANSWER_DELAY_MS, Timer::Assign(id)));
        }
        Some(acts)
    }

    /// The players that a shot of `id` may hit: the alive players of the
    /// other team, in member order. `None` when `id` is not an alive player.
    pub fn fire_candidates(&self, id: Id) -> (r: Option<Vec<Id>>)
        requires
            self@.wf(),
        ensures
            r is Some <==> self@.can_fire(id),
            r matches Some(c) ==> c@ == self@.fire_candidates(id),
    {
        let shooter_team = match self.players.get(&id) {
            Some(p) => {
                if bool_as_option(p.alive).is_none() {
                    return None;
                }
                p.team
            },
            None => {
                return None;
            },
        };
        let ids = self.member_list();
        let mut c: Vec<Id> = Vec::new();
        let mut i: usize = 0;
        let ghost v = self@;
        let ghost pred = |x: Id| v.players[x].alive && v.players[x].team != v.players[id].team;
        while i < ids.len()
            invariant
                v == self@,
                v.wf(),
                v.players.contains_key(id),
                shooter_team == v.players[id].team,
                pred == (|x: Id| v.players[x].alive && v.players[x].team != v.players[id].team),
                ids@ == v.members(),
                i <= ids@.len(),
                c@ == ids@.subrange(0, i as int).filter(pred),
            decreases ids@.len() - i,
        {
            let x = ids[i];
            proof {
                lemma_member_in_teams(v.team0, v.team1, i as int);
                assert(v.players.contains_key(x));
            }
            match self.players.get(&x) {
                Some(p) => {
                    if p.alive && p.team != shooter_team {
                        c.push(x);
                    }
                },
                None => {
                    assert(false);
                },
            }
            proof {
                let s = ids@.subrange(0, i as int);
                assert(ids@.subrange(0, i + 1) =~= s.push(x));
                lemma_filter_push(s, pred, x);
            }
            i = i + 1;
        }
        assert(ids@.subrange(0, i as int) =~= ids@);
        Some(c)
    }

    /// `id` fired at `target`, if any: the shot hits `target` only when it is
    /// an alive player of the other team. Everyone is told, and the shooter
    /// waits for a new problem. `None` when `id` is not an alive player.
    pub fn player_fire(&mut self, id: Id, target: Option<Id>) -> (r: Option<Vec<Action>>)
        requires
            old(self)@.wf(),
        ensures
            final(self)@.wf(),
            r is Some <==> old(self)@.can_fire(id),
            fire_outcome(old(self)@, final(self)@, id, target, opt_seq(r)),
            keeps_frame(old(self)@, final(self)@),
    {
        match self.players.get(&id) {
            Some(p) => {
                if bool_as_option(p.alive).is_none() {
                    return None;
                }
            },
            None => {
                return None;
            },
        }
        let ghost v = self@;
        let hit = match target {
            Some(t) => match self.fire_candidates(id) {
                Some(c) => if vec_contains(&c, t) { Some(t) } else { None },
                None => None,
            },
            None => None,
        };
        assert(hit == hit_target(v, id, target));
        let to = self.member_list();
        let mut acts: Vec<Action> = Vec::new();
        acts.push(Action::Send(to, Outgoing::FireResult(self.index, id, hit)));
        self.set_state(id, PlayerState::Waiting);
        acts.push(Action::Schedule(self.index, NEXT_PROBLEM_DELAY_MS, Timer::Assign(id)));
        Some(acts)
    }

    /// Whether every player of team `t` is dead.
    fn team_dead(&self, t: usize) -> (b: bool)
        requires
            self@.wf(),
            t < 2,
        ensures
            b == self@.team_dead(t),
    {
        let mut i: usize = 0;
        while i < self.teams[t].len()
            invariant
                t < 2,
                self@.wf(),
                i <= self@.team(t as int).len(),
                forall|j: int| 0 <= j < i ==> !self@.players[#[trigger] self@.team(t as int)[j]].alive,
            decreases self@.team(t as int).len() - i,
        {
            let x = self.teams[t][i];
            proof {
                assert(self@.team(t as int)[i as int] == x);
                assert(self@.team(t as int).contains(x));
                assert(self@.players.contains_key(x));
            }
            match self.players.get(&x) {
                Some(p) => {
                    if p.alive {
                        proof {
                            assert(self@.players[x].team == t) by {
                                if self@.players[x].team != t {
                                    assert(self@.team(self@.players[x].team as int).contains(x));
                                }
                            }
                        }
                        return false;
                    }
                },
                None => {
                    assert(false);
                },
            }
            i = i + 1;
        }
        proof {
            assert forall|x: Id| #[trigger] self@.players.contains_key(x) && self@.players[x].team == t
                implies !self@.players[x].alive by {
                assert(self@.team(t as int).contains(x));
                let k = choose|k: int| 0 <= k < self@.team(t as int).len() && self@.team(t as int)[k] == x;
                assert(!self@.players[self@.team(t as int)[k]].alive);
            }
        }
        true
    }

    /// `id` dies; when its whole team is dead, everyone is told that the
    /// other team won. `None` when `id` is not a player.
    pub fn user_dead(&mut self, id: Id) -> (r: Option<Vec<Action>>)
        requires
            old(self)@.wf(),
        ensures
            final(self)@.wf(),
            r is Some <==> old(self)@.players.contains_key(id),
            death_outcome(old(self)@, final(self)@, id, opt_seq(r)),
            keeps_frame(old(self)@, final(self)@),
    {
        let ghost v = self@;
        let team = match self.players.remove(&id) {
            Some(p) => {
                let Player { id: pid, name, team, alive: _, entered, state } = p;
                self.players.insert(id, Player { id: pid, name, team, alive: false, entered, state });
                team
            },
            None => {
                assert(self@.players =~= v.players);
                return None;
            },
        };
        proof {
            assert(v.players.contains_key(id) && v.players[id].team == team);
            lemma_put_wf(v, id, with_dead(v.players[id]));
            assert(self@.players =~= v.put(id, with_dead(v.players[id])).players);
            assert(self@ == v.put(id, with_dead(v.players[id])));
            assert(self@.players.dom() =~= v.players.dom());
        }
        let mut acts: Vec<Action> = Vec::new();
        if self.team_dead(team) {
            let winner: usize = if team == 0 { 1 } else { 0 };
            let to = self.member_list();
            acts.push(Action::Send(to, Outgoing::TeamWin(winner)));
        }
        Some(acts)
    }

    /// What the game shows of its players, in member order.
    fn players_info(&self) -> (infos: Vec<PlayerInfo>)
        requires
            self@.wf(),
        ensures
            infos@.len() == self@.members().len(),
            forall|i: int| 0 <= i < infos@.len() ==> is_info_of(#[trigger] infos@[i], self@.players[self@.members()[i]]),
    {
        let ids = self.member_list();
        let mut infos: Vec<PlayerInfo> = Vec::new();
        let mut i: usize = 0;
        while i < ids.len()
            invariant
                self@.wf(),
                ids@ == self@.members(),
                i <= ids@.len(),
                infos@.len() == i,
                forall|j: int| 0 <= j < i ==> is_info_of(#[trigger] infos@[j], self@.players[ids@[j]]),
            decreases ids@.len() - i,
        {
            let x = ids[i];
            proof {
                lemma_member_in_teams(self@.team0, self@.team1, i as int);
                assert(self@.players.contains_key(x));
            }
            match self.players.get(&x) {
                Some(p) => {
                    infos.push(PlayerInfo { id: p.id, name: p.name.clone(), team: p.team, alive: p.alive });
                },
                None => {
                    assert(false);
                },
            }
            i = i + 1;
        }
        infos
    }

    /// Whether every player has entered.
    fn all_entered(&self) -> (b: bool)
        requires
            self@.wf(),
        ensures
            b == self@.all_entered(),
    {
        let ids = self.member_list();
        let mut i: usize = 0;
        while i < ids.len()
            invariant
                self@.wf(),
                ids@ == self@.members(),
                i <= ids@.len(),
                forall|j: int| 0 <= j < i ==> self@.players[#[trigger] ids@[j]].entered,
            decreases ids@.len() - i,
        {
            let x = ids[i];
            proof {
                lemma_member_in_teams(self@.team0, self@.team1, i as int);
                assert(self@.players.contains_key(x));
            }
            match self.players.get(&x) {
                Some(p) => {
                    if !p.entered {
                        assert(!self@.players[x].entered);
                        return false;
                    }
                },
                None => {
                    assert(false);
                },
            }
            i = i + 1;
        }
        proof {
            assert forall|x: Id| #[trigger] self@.players.contains_key(x) implies self@.players[x].entered by {
                assert(self@.members().contains(x));
                let k = choose|k: int| 0 <= k < ids@.len() && ids@[k] == x;
                assert(self@.players[ids@[k]].entered);
            }
        }
        true
    }

    /// `id` has opened the game page; once every player has, the game
    /// starts: everyone is sent the players, and problems follow shortly.
    pub fn player_enter(&mut self, id: Id) -> (acts: Vec<Action>)
        requires
            old(self)@.wf(),
        ensures
            final(self)@.wf(),
            enter_outcome(old(self)@, final(self)@, id, acts@),
            keeps_frame(old(self)@, final(self)@),
    {
        let ghost v = self@;
        match self.players.remove(&id) {
            Some(p) => {
                let Player { id: pid, name, team, alive, entered: _, state } = p;
                self.players.insert(id, Player { id: pid, name, team, alive, entered: true, state });
            },
            None => {
                assert(self@.players =~= v.players);
                return Vec::new();
            },
        }
        proof {
            assert(v.players.contains_key(id));
            lemma_put_wf(v, id, with_entered(v.players[id]));
            assert(self@.players =~= v.put(id, with_entered(v.players[id])).players);
            assert(self@ == v.put(id, with_entered(v.players[id])));
            assert(self@.players.dom() =~= v.players.dom());
        }
        let mut acts: Vec<Action> = Vec::new();
        if self.all_entered() {
            self.state = GameState::Started;
            let to = self.member_list();
            let infos = self.players_info();
            acts.push(Action::Send(to, Outgoing::PlayersData(self.index, infos)));
            acts.push(Action::Schedule(self.index, NEXT_PROBLEM_DELAY_MS, Timer::AssignAll));
        }
        acts
    }

    /// A timer of this game came due: hand out the problems it asked for.
    pub fn on_timer(&mut self, timer: Timer) -> (acts: Vec<Action>)
        requires
            old(self)@.wf(),
        ensures
            final(self)@.wf(),
            timer_outcome(old(self)@, final(self)@, timer, acts@),
            keeps_frame(old(self)@, final(self)@),
    {
        match timer {
            Timer::Assign(id) => {
                let r = self.assign_problem(id);
                match r {
                    Some(a) => a,
                    None => Vec::new(),
                }
            },
            Timer::AssignAll => {
                let ghost before = self@;
                let ghost waiting = |x: Id| is_waiting(before, x);
                let ids = self.member_list();
                proof {
                    lemma_members_no_dup(before);
                }
                let mut acts: Vec<Action> = Vec::new();
                let mut i: usize = 0;
                while i < ids.len()
                    invariant
                        self@.wf(),
                        before.wf(),
                        ids@ == before.members(),
                        ids@.no_duplicates(),
                        waiting == (|x: Id| is_waiting(before, x)),
                        i <= ids@.len(),
                        self@ == (GameView { players: self@.players, ..before }),
                        self@.players.dom() == before.players.dom(),
                        forall|id: Id| #[trigger] before.players.contains_key(id) ==> if is_waiting(before, id)
                            && ids@.subrange(0, i as int).contains(id) {
                            &&& self@.players[id].state is Answering
                            &&& self@.players[id].state->Answering_0 < before.problems.len()
                            &&& self@.players[id] == with_state(before.players[id], self@.players[id].state)
                        } else {
                            self@.players[id] == before.players[id]
                        },
                        acts@.len() == ids@.subrange(0, i as int).filter(waiting).len(),
                        forall|k: int| 0 <= k < acts@.len() ==> #[trigger] sends_problem(
                            acts@[k],
                            before,
                            ids@.subrange(0, i as int).filter(waiting)[k],
                            self@.players[ids@.subrange(0, i as int).filter(waiting)[k]].state->Answering_0 as int,
                        ),
                        forall|k: int| 0 <= k < ids@.subrange(0, i as int).filter(waiting).len()
                            ==> ids@.subrange(0, i as int).contains(#[trigger] ids@.subrange(0, i as int).filter(waiting)[k]),
                    decreases ids@.len() - i,
                {
                    let id = ids[i];
                    let ghost cur = self@;
                    let ghost pre = ids@.subrange(0, i as int);
                    proof {
                        lemma_member_in_teams(before.team0, before.team1, i as int);
                        assert(before.players.contains_key(id));
                        assert(!pre.contains(id)) by {
                            if pre.contains(id) {
                                let k = choose|k: int| 0 <= k < pre.len() && pre[k] == id;
                                assert(ids@[k] == ids@[i as int]);
                            }
                        }
                        assert(cur.players[id] == before.players[id]);
                        assert(is_waiting(cur, id) == is_waiting(before, id));
                        assert(ids@.subrange(0, i + 1) =~= pre.push(id));
                        lemma_filter_push(pre, waiting, id);
                    }
                    let ghost old_acts = acts@;
                    let r = self.assign_problem(id);
                    let ghost pu = choose|p: usize| p < cur.problems.len()
                        && #[trigger] assign_outcome(cur, self@, id, p as int, opt_seq(r));
                    let ghost p = pu as int;
                    if let Some(mut a) = r {
                        proof {
                            assert(sends_problem(a@[0], before, id, p));
                        }
                        acts.append(&mut a);
                    }
                    proof {
                        let post = ids@.subrange(0, i + 1);
                        assert forall|k: int| 0 <= k < acts@.len() implies #[trigger] sends_problem(
                            acts@[k],
                            before,
                            post.filter(waiting)[k],
                            self@.players[post.filter(waiting)[k]].state->Answering_0 as int,
                        ) by {
                            if k < pre.filter(waiting).len() {
                                let x = pre.filter(waiting)[k];
                                assert(pre.contains(x));
                                assert(x != id);
                                assert(post.filter(waiting)[k] == x);
                                assert(acts@[k] == old_acts[k]);
                                assert(self@.players[x] == cur.players[x]);
                                assert(sends_problem(old_acts[k], before, x, cur.players[x].state->Answering_0 as int));
                            } else {
                                assert(is_waiting(before, id));
                                assert(k == old_acts.len());
                                assert(post.filter(waiting)[k] == id);
                                assert(acts@[k] == opt_seq(r)[0]);
                                assert(sends_problem(opt_seq(r)[0], cur, id, p));
                                assert(cur.problems == before.problems);
                                assert(sends_problem(opt_seq(r)[0], before, id, p));
                                assert(self@.players[id].state == PlayerState::Answering(pu));
                                assert(self@.players[id].state->Answering_0 as int == p);
                            }
                        }
                        assert forall|k: int| 0 <= k < post.filter(waiting).len()
                            implies post.contains(#[trigger] post.filter(waiting)[k]) by {
                            if k < pre.filter(waiting).len() {
                                assert(pre.contains(pre.filter(waiting)[k]));
                            }
                        }
                    }
                    i = i + 1;
                }
                proof {
                    assert(ids@.subrange(0, i as int) =~= ids@);
                    assert forall|id: Id| #[trigger] before.players.contains_key(id) implies ids@.contains(id) by {
                        lemma_member_of_team(before, id);
                    }
                }
                acts
            },
        }
    }
}





impl MessageSink for Game {
    type Message = Message;
    type Outcome = Vec<Action>;

    open spec fn sink_wf(&self) -> bool {
        self@.wf()
    }

    /// A message of `id` to the game.
    fn proc_message(&mut self, id: Id, msg: Message) -> (acts: Vec<Action>)
        ensures
            final(self)@.wf(),
            message_outcome(old(self)@, final(self)@, id, msg, acts@),
            keeps_frame(old(self)@, final(self)@),
    {
        match msg {
            Message::Entered => self.player_enter(id),
            Message::Answer(a) => {
                let r = self.answer(id, a);
                match r {
                    Some(acts) => acts,
                    None => Vec::new(),
                }
            },
            Message::Fire(target) => {
                let r = self.player_fire(id, target);
                match r {
                    Some(acts) => acts,
                    None => Vec::new(),
                }
            },
        }
    }
}

impl UserEventListener for Game {
    open spec fn listener_wf(&self) -> bool {
        self@.wf()
    }

    /// `id` left: in a game that counts as dying.
    fn user_disconnect(&mut self, id: Id) -> (acts: Vec<Action>)
        ensures
            final(self)@.wf(),
            death_outcome(old(self)@, final(self)@, id, acts@),
            keeps_frame(old(self)@, final(self)@),
    {
        let r = self.user_dead(id);
        match r {
            Some(acts) => acts,
            None => Vec::new(),
        }
    }
}

impl RawService for Game {

}

/// A player holds at most one problem at a time: handing out a problem
/// twice in a row gives nothing the second time.
pub proof fn lemma_assign_only_when_waiting(
    before: GameView,
    mid: GameView,
    after: GameView,
    id: Id,
    p: int,
    q: int,
    acts1: Seq<Action>,
    acts2: Seq<Action>,
)
    requires
        assign_outcome(before, mid, id, p, acts1),
        assign_outcome(mid, after, id, q, acts2),
    ensures
        after == mid,
        acts2.len() == 0,
{
}

/// A problem is answered at most once: a second answer before the next
/// problem is ignored.
pub proof fn lemma_answer_once(
    before: GameView,
    mid: GameView,
    after: GameView,
    id: Id,
    a: usize,
    b: usize,
    acts1: Seq<Action>,
    acts2: Seq<Action>,
)
    requires
        answer_outcome(before, mid, id, a, acts1),
        answer_outcome(mid, after, id, b, acts2),
    ensures
        after == mid,
        acts2.len() == 0,
{
}

/// A dead player cannot fire.
pub proof fn lemma_dead_cannot_fire(
    before: GameView,
    mid: GameView,
    after: GameView,
    id: Id,
    target: Option<Id>,
    acts1: Seq<Action>,
    acts2: Seq<Action>,
)
    requires
        death_outcome(before, mid, id, acts1),
        fire_outcome(mid, after, id, target, acts2),
    ensures
        after == mid,
        acts2.len() == 0,
{
}

/// Only the right choice is judged right, and only it lets the player fire.
pub proof fn lemma_right_answer_fires(before: GameView, after: GameView, id: Id, a: usize, acts: Seq<Action>)
    requires
        is_answering(before, id),
        answer_outcome(before, after, id, a, acts),
    ensures
        (after.players[id].state == PlayerState::Firing) <==> a == before.problems[
            before.players[id].state->Answering_0 as int
        ].correct,
        acts[0] matches Action::Send(_, Outgoing::JudgeResult(b)) && b == (a
            == before.problems[before.players[id].state->Answering_0 as int].correct),
{
}

/// The players a shot may hit are alive and on the other team (so never
/// the shooter).
pub proof fn lemma_candidates_are_enemies(v: GameView, id: Id)
    requires
        v.wf(),
        v.can_fire(id),
    ensures
        forall|k: int| 0 <= k < v.fire_candidates(id).len() ==> {
            let x = #[trigger] v.fire_candidates(id)[k];
            &&& v.players.contains_key(x)
            &&& v.players[x].alive
            &&& v.players[x].team != v.players[id].team
            &&& x != id
        },
{
    let pred = |x: Id| v.players[x].alive && v.players[x].team != v.players[id].team;
    assert forall|k: int| 0 <= k < v.fire_candidates(id).len() implies {
        let x = #[trigger] v.fire_candidates(id)[k];
        &&& v.players.contains_key(x)
        &&& v.players[x].alive
        &&& v.players[x].team != v.players[id].team
        &&& x != id
    } by {
        let x = v.fire_candidates(id)[k];
        v.members().lemma_filter_pred(pred, k);
        assert(v.members().filter(pred).contains(x));
        v.members().lemma_filter_contains_rev(pred, x);
        assert(v.members().contains(x));
        let i = choose|i: int| 0 <= i < v.members().len() && v.members()[i] == x;
        lemma_member_in_teams(v.team0, v.team1, i);
    }
}

/// A shot reports as hit only an alive player of the other team, whatever
/// target it was aimed at.
pub proof fn lemma_fire_hits_only_enemies(before: GameView, after: GameView, id: Id, target: Option<Id>, acts: Seq<Action>)
    requires
        before.wf(),
        fire_outcome(before, after, id, target, acts),
        acts.len() > 0,
        acts[0] matches Action::Send(_, Outgoing::FireResult(_, _, Some(_))),
    ensures
        acts[0] matches Action::Send(_, Outgoing::FireResult(_, _, Some(x))) && {
            &&& before.players.contains_key(x)
            &&& before.players[x].alive
            &&& before.players[x].team != before.players[id].team
            &&& target == Some(x)
        },
{
    if let Action::Send(_, Outgoing::FireResult(_, _, Some(x))) = acts[0] {
        lemma_candidates_are_enemies(before, id);
        let k = choose|k: int| 0 <= k < before.fire_candidates(id).len() && before.fire_candidates(id)[k] == x;
        assert(before.fire_candidates(id)[k] == x);
    }
}

/// Every alive player of the other team is a candidate of an alive shooter,
/// whatever that player is doing, so a shot aimed at it hits it.
pub proof fn lemma_every_enemy_is_a_candidate(v: GameView, id: Id, x: Id)
    requires
        v.wf(),
        v.can_fire(id),
        v.players.contains_key(x),
        v.players[x].alive,
        v.players[x].team != v.players[id].team,
    ensures
        v.fire_candidates(id).contains(x),
        hit_target(v, id, Some(x)) == Some(x),
{
    let pred = |y: Id| v.players[y].alive && v.players[y].team != v.players[id].team;
    let m = v.members();
    let i: int = if v.team0.contains(x) {
        let k = choose|k: int| 0 <= k < v.team0.len() && v.team0[k] == x;
        k
    } else {
        let k = choose|k: int| 0 <= k < v.team1.len() && v.team1[k] == x;
        k + v.team0.len()
    };
    assert(m[i] == x);
    m.lemma_filter_contains(pred, i);
}

/// Nothing brings the dead back: after any message or timer, a dead player
/// is still dead, and so after any death.
pub proof fn lemma_death_is_final(before: GameView, after: GameView, x: Id, id: Id, msg: Message, timer: Timer, acts: Seq<Action>)
    requires
        before.players.contains_key(x),
        !before.players[x].alive,
        message_outcome(before, after, id, msg, acts) || timer_outcome(before, after, timer, acts)
            || death_outcome(before, after, id, acts),
    ensures
        after.players.contains_key(x),
        !after.players[x].alive,
{
    if message_outcome(before, after, id, msg, acts) {
    } else if timer_outcome(before, after, timer, acts) {
        if let Timer::Assign(y) = timer {
            let p = choose|p: usize| p < before.problems.len() && #[trigger] assign_outcome(before, after, y, p as int, acts);
        }
    }
}

/// A team wins only when the other one is wholly dead: whenever a death
/// announces a winner, every player of the dead player's team is dead and
/// the winner is the other team.
pub proof fn lemma_team_win_only_when_wiped(before: GameView, after: GameView, id: Id, acts: Seq<Action>)
    requires
        before.wf(),
        death_outcome(before, after, id, acts),
        acts.len() > 0,
    ensures
        before.players.contains_key(id),
        after.team_dead(before.players[id].team),
        acts[0] matches Action::Send(_, Outgoing::TeamWin(w)) && w != before.players[id].team && w < 2,
{
}

} // verus!
