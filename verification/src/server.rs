use vstd::prelude::*;
use crate::common::Id;
use crate::action::{Action, Outgoing};
use crate::lobby::{self, Lobby, LobbyView};
use crate::problem::{RawProblem, raw_problem_ok};
use crate::room::RoomView;

verus! {

/// What the websocket layer reports about a connection.
pub enum WsEvent {
    /// A client connected under this id.
    Connect(Id),
    /// The client sent this text.
    Message(Id, String),
    /// The client answered a ping after this many milliseconds.
    Ping(Id, i64),
    /// The client left.
    Disconnect(Id),
}

/// The game server: the lobby, with the users, the waiting room and the
/// games behind it.
pub struct GameServer {
    pub lobby: Lobby,
}

/// What one websocket event does to the server.
pub open spec fn ws_event_outcome(before: LobbyView, after: LobbyView, event: WsEvent, acts: Seq<Action>) -> bool {
    match event {
        WsEvent::Connect(_) => {
            &&& after == before
            &&& acts.len() == 0
        },
        WsEvent::Disconnect(id) => lobby::disconnect_outcome(before, after, id, acts),
        WsEvent::Message(id, text) => {
            &&& after == before
            &&& acts.len() == 1
            &&& acts[0] matches Action::Decode(who, route, t) && who == id && route == before.route(id) && t == text
        },
        WsEvent::Ping(id, diff) => {
            &&& after == before
            &&& acts.len() == 1
            &&& acts[0] matches Action::Send(to, Outgoing::Ping(d)) && to@ == seq![id] && d == diff
        },
    }
}

impl GameServer {
    /// A server whose games hand out `problems`.
    pub fn new(problems: Vec<RawProblem>) -> (s: Self)
        requires
            problems@.len() > 0,
            forall|i: int| 0 <= i < problems@.len() ==> raw_problem_ok(#[trigger] problems@[i]@),
        ensures
            s.lobby@.wf(),
            s.lobby@ == (LobbyView {
                users: Map::empty(),
                sinks: Map::empty(),
                room: RoomView::empty(),
                games: Seq::empty(),
                problems: problems@.map_values(|p: RawProblem| p@),
            }),
    {
        Self { lobby: Lobby::new(problems) }
    }

    /// Handles one websocket event: a disconnection reaches the lobby, a
    /// text must be decoded for the place its sender is routed to, and a
    /// ping time is sent back to the client.
    pub fn spawn_ws_event(&mut self, event: WsEvent) -> (acts: Vec<Action>)
        requires
            old(self).lobby@.wf(),
        ensures
            final(self).lobby@.wf(),
            ws_event_outcome(old(self).lobby@, final(self).lobby@, event, acts@),
    {
        let mut acts: Vec<Action> = Vec::new();
        match event {
            WsEvent::Connect(_id) => {},
            WsEvent::Disconnect(id) => {
                acts = self.lobby.user_disconnect(id);
            },
            WsEvent::Message(id, msg) => {
                let route = self.lobby.route(id);
                acts.push(Action::Decode(id, route, msg));
            },
            WsEvent::Ping(id, diff) => {
                let mut to: Vec<Id> = Vec::new();
                to.push(id);
                acts.push(Action::Send(to, Outgoing::Ping(diff)));
            },
        }
        acts
    }
}

} // verus!
