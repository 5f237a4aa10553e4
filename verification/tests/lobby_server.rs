use game_server::action::{Action, Outgoing, Route, Timer};
use game_server::game::Message as GameMessage;
use game_server::lobby::{Incoming, Lobby, Message};
use game_server::problem::RawProblem;
use game_server::room::Message as RoomMessage;
use game_server::server::{GameServer, WsEvent};
use game_server::service::MessageSink;

fn problems() -> Vec<RawProblem> {
    vec![RawProblem { question: "2+2?".to_string(), answers: vec!["4".to_string(), "5".to_string()] }]
}

#[test]
fn request_initial_answers_with_the_id() {
    let mut l = Lobby::new(problems());
    let acts = l.dispatch(5, Incoming::Lobby(Message::RequestInitial("eve".to_string())));
    assert_eq!(acts.len(), 1);
    assert!(matches!(&acts[0], Action::Send(to, Outgoing::Initial(5)) if *to == vec![5]));
    assert_eq!(l.route(5), Route::Lobby);
}

#[test]
fn join_needs_an_introduction() {
    let mut l = Lobby::new(problems());
    assert_eq!(l.dispatch(5, Incoming::Lobby(Message::Join)).len(), 0);
    assert_eq!(l.route(5), Route::Lobby);
    l.dispatch(5, Incoming::Lobby(Message::RequestInitial("eve".to_string())));
    let acts = l.dispatch(5, Incoming::Lobby(Message::Join));
    assert_eq!(acts.len(), 1);
    assert!(matches!(&acts[0], Action::Send(to, Outgoing::RoomData(_)) if *to == vec![5]));
    assert_eq!(l.route(5), Route::Room);
}

#[test]
fn messages_for_the_wrong_place_are_dropped() {
    let mut l = Lobby::new(problems());
    assert_eq!(l.dispatch(5, Incoming::Room(RoomMessage::Ready)).len(), 0);
    assert_eq!(l.dispatch(5, Incoming::Game(GameMessage::Entered)).len(), 0);
    l.dispatch(5, Incoming::Lobby(Message::RequestInitial("eve".to_string())));
    l.dispatch(5, Incoming::Lobby(Message::Join));
    assert_eq!(l.dispatch(5, Incoming::Lobby(Message::Join)).len(), 0);
    assert_eq!(l.route(5), Route::Room);
}

fn lobby_with_game() -> Lobby {
    let mut l = Lobby::new(problems());
    for (id, name) in [(1usize, "a"), (2, "b")] {
        l.dispatch(id, Incoming::Lobby(Message::RequestInitial(name.to_string())));
        l.dispatch(id, Incoming::Lobby(Message::Join));
    }
    l.dispatch(1, Incoming::Room(RoomMessage::Ready));
    let acts = l.dispatch(2, Incoming::Room(RoomMessage::Ready));
    assert_eq!(acts.len(), 3);
    assert!(matches!(&acts[1], Action::Send(_, Outgoing::GameStart)));
    assert!(matches!(&acts[2], Action::GameSpawned(0, ids) if *ids == vec![1, 2]));
    l
}

#[test]
fn all_ready_moves_the_room_into_a_game() {
    let mut l = lobby_with_game();
    assert_eq!(l.route(1), Route::Game(0));
    assert_eq!(l.route(2), Route::Game(0));
    assert_eq!(l.game_member_list(0), Some(vec![1, 2]));
    assert_eq!(l.game_member_list(1), None);
    assert_eq!(l.fire_candidates(1), Some((0, vec![2])));
    // room messages no longer reach anyone
    assert_eq!(l.dispatch(1, Incoming::Room(RoomMessage::Entered)).len(), 0);
    // a newcomer gets a fresh room
    l.dispatch(3, Incoming::Lobby(Message::RequestInitial("c".to_string())));
    let acts = l.dispatch(3, Incoming::Lobby(Message::Join));
    assert!(matches!(&acts[0], Action::Send(to, Outgoing::RoomData(d)) if *to == vec![3] && d.teams[0] == vec![3]));
}

#[test]
fn game_flow_through_the_lobby() {
    let mut l = lobby_with_game();
    l.dispatch(1, Incoming::Game(GameMessage::Entered));
    let acts = l.dispatch(2, Incoming::Game(GameMessage::Entered));
    assert!(matches!(acts[1], Action::Schedule(0, 1000, Timer::AssignAll)));
    let acts = l.game_timer(0, Timer::AssignAll);
    assert_eq!(acts.len(), 2);
    // the only problem: "4" is the right answer wherever it was shuffled
    let right = match &acts[0] {
        Action::Send(_, Outgoing::Problem(_, ans)) => ans.iter().position(|a| a == "4").unwrap(),
        _ => panic!(),
    };
    let acts = l.dispatch(1, Incoming::Game(GameMessage::Answer(right)));
    assert!(matches!(acts[0], Action::Send(_, Outgoing::JudgeResult(true))));
    let acts = l.dispatch(1, Incoming::Game(GameMessage::Fire(Some(2))));
    assert!(matches!(acts[0], Action::Send(_, Outgoing::FireResult(0, 1, Some(2)))));
    let acts = l.game_user_dead(0, 2);
    assert!(matches!(&acts[0], Action::Send(_, Outgoing::TeamWin(0))));
    assert_eq!(l.game_timer(5, Timer::AssignAll).len(), 0);
}

#[test]
fn disconnect_from_room_and_game() {
    let mut l = lobby_with_game();
    let acts = l.user_disconnect(2);
    assert!(matches!(&acts[0], Action::Send(_, Outgoing::TeamWin(0))));
    assert_eq!(l.route(2), Route::Lobby);
    assert_eq!(l.route(1), Route::Game(0));
    l.dispatch(3, Incoming::Lobby(Message::RequestInitial("c".to_string())));
    l.dispatch(3, Incoming::Lobby(Message::Join));
    l.dispatch(4, Incoming::Lobby(Message::RequestInitial("d".to_string())));
    l.dispatch(4, Incoming::Lobby(Message::Join));
    let acts = l.user_disconnect(3);
    assert!(matches!(&acts[0], Action::Send(to, Outgoing::RoomData(_)) if *to == vec![4]));
    assert_eq!(l.route(3), Route::Lobby);
    assert_eq!(l.user_disconnect(3).len(), 0);
}

#[test]
fn server_routes_websocket_events() {
    let mut s = GameServer::new(problems());
    assert_eq!(s.spawn_ws_event(WsEvent::Connect(1)).len(), 0);
    let acts = s.spawn_ws_event(WsEvent::Message(1, "{\"RequestInitial\":\"x\"}".to_string()));
    assert!(matches!(&acts[0], Action::Decode(1, Route::Lobby, t) if t == "{\"RequestInitial\":\"x\"}"));
    let acts = s.spawn_ws_event(WsEvent::Ping(1, 42));
    assert!(matches!(&acts[0], Action::Send(to, Outgoing::Ping(42)) if *to == vec![1]));
    s.lobby.dispatch(1, Incoming::Lobby(Message::RequestInitial("x".to_string())));
    s.lobby.dispatch(1, Incoming::Lobby(Message::Join));
    let acts = s.spawn_ws_event(WsEvent::Message(1, "\"Ready\"".to_string()));
    assert!(matches!(&acts[0], Action::Decode(1, Route::Room, _)));
    let acts = s.spawn_ws_event(WsEvent::Disconnect(1));
    assert!(matches!(&acts[0], Action::Send(to, Outgoing::RoomData(_)) if to.is_empty()));
    assert_eq!(s.lobby.route(1), Route::Lobby);
}

#[test]
fn two_joins_share_the_room() {
    let mut l = Lobby::new(problems());
    l.dispatch(4, Incoming::Lobby(Message::RequestInitial("a".to_string())));
    l.dispatch(8, Incoming::Lobby(Message::RequestInitial("b".to_string())));
    l.dispatch(4, Incoming::Lobby(Message::Join));
    let acts = l.dispatch(8, Incoming::Lobby(Message::Join));
    assert_eq!(l.route(4), Route::Room);
    assert_eq!(l.route(8), Route::Room);
    assert!(matches!(&acts[0], Action::Send(to, Outgoing::RoomData(d))
        if *to == vec![4, 8] && d.teams[0] == vec![4] && d.teams[1] == vec![8]));
}

#[test]
fn join_from_a_game_moves_to_the_room() {
    let mut l = lobby_with_game();
    let acts = l.proc_message(1, Message::Join);
    assert_eq!(acts.len(), 1);
    assert_eq!(l.route(1), Route::Room);
    assert!(matches!(&acts[0], Action::Send(to, Outgoing::RoomData(d)) if *to == vec![1] && d.teams[0] == vec![1]));
}

#[test]
fn room_member_join_does_nothing_but_introduction_is_answered() {
    let mut l = Lobby::new(problems());
    l.dispatch(4, Incoming::Lobby(Message::RequestInitial("a".to_string())));
    l.dispatch(4, Incoming::Lobby(Message::Join));
    assert_eq!(l.proc_message(4, Message::Join).len(), 0);
    assert_eq!(l.route(4), Route::Room);
    let acts = l.proc_message(4, Message::RequestInitial("b".to_string()));
    assert!(matches!(&acts[0], Action::Send(to, Outgoing::Initial(4)) if *to == vec![4]));
    assert_eq!(l.route(4), Route::Room);
}
