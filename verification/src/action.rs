use vstd::prelude::*;
use crate::common::Id;
use crate::room::RoomData;
use crate::game::PlayerInfo;

verus! {

/// Where the messages of a user go, and so what a raw message of that user
/// must be decoded as.
#[derive(PartialEq, Eq, Structural, Clone, Copy, Debug)]
pub enum Route {
    /// Not yet in a room or a game: lobby messages.
    Lobby,
    /// In the waiting room: room messages.
    Room,
    /// In the game with this index: game messages.
    Game(usize),
}

/// What the server sends to users. Positions, health and the flight of a
/// shot are kept by the program around the library, which adds them to
/// `PlayersData` and `FireResult` and sends `Damage` itself.
pub enum Outgoing {
    /// The lobby's answer to an introduction: the user's own id.
    Initial(Id),
    /// The players of the waiting room and its two teams.
    RoomData(RoomData),
    /// The waiting room has become a game.
    GameStart,
    /// The players of the game with this index.
    PlayersData(usize, Vec<PlayerInfo>),
    /// A problem to answer: the question and the shuffled answers.
    Problem(String, Vec<String>),
    /// The answer was right: the player may fire.
    StartFire,
    /// In the game with this index, the first player fired and hit the second, if any.
    FireResult(usize, Id, Option<Id>),
    /// Whether the answer was right.
    JudgeResult(bool),
    /// This team has won.
    TeamWin(usize),
    /// The measured round-trip time of a ping, in milliseconds.
    Ping(i64),
}

/// Something a game asks to have done to itself after a delay.
#[derive(PartialEq, Eq, Structural, Clone, Copy, Debug)]
pub enum Timer {
    /// Hand a problem to every player.
    AssignAll,
    /// Hand a problem to this player.
    Assign(Id),
}

/// What the server must do after handling an event.
pub enum Action {
    /// Send the message to each of these users, in this order.
    Send(Vec<Id>, Outgoing),
    /// After this many milliseconds, hand the timer back to the game with this index.
    Schedule(usize, u64, Timer),
    /// A game with this index has started with these players (place them on the field).
    GameSpawned(usize, Vec<Id>),
    /// Decode this raw message of this user as a message for this route,
    /// and hand it back.
    Decode(Id, Route, String),
}

} // verus!
