use game_server::action::{Action, Outgoing, Timer};
use game_server::game::{Game, Message as GameMessage, PlayerState};
use game_server::lobby::User;
use game_server::problem::Problem;
use game_server::room::{Message as RoomMessage, Room};
use game_server::service::{MessageSink, UserEventListener};

fn user(id: usize, name: &str) -> User {
    User(id, name.to_string())
}

fn problem(q: &str, answers: &[&str], correct: usize) -> Problem {
    Problem { question: q.to_string(), answers: answers.iter().map(|s| s.to_string()).collect(), correct }
}

fn recipients(a: &Action) -> Vec<usize> {
    match a {
        Action::Send(to, _) => to.clone(),
        _ => panic!("not a send"),
    }
}

fn room_teams(a: &Action) -> (Vec<usize>, Vec<usize>) {
    match a {
        Action::Send(_, Outgoing::RoomData(d)) => (d.teams[0].clone(), d.teams[1].clone()),
        _ => panic!("not room data"),
    }
}

#[test]
fn entering_alternates_teams() {
    let mut r = Room::new();
    let a = r.user_entering(user(1, "ann"));
    assert_eq!(room_teams(&a[0]), (vec![1], vec![]));
    assert_eq!(recipients(&a[0]), vec![1]);
    let a = r.user_entering(user(2, "bob"));
    assert_eq!(room_teams(&a[0]), (vec![1], vec![2]));
    let a = r.user_entering(user(3, "cid"));
    assert_eq!(room_teams(&a[0]), (vec![1, 3], vec![2]));
    assert_eq!(recipients(&a[0]), vec![1, 3, 2]);
    match &a[0] {
        Action::Send(_, Outgoing::RoomData(d)) => {
            let names: Vec<&str> = d.players.iter().map(|p| p.name.as_str()).collect();
            assert_eq!(names, vec!["ann", "cid", "bob"]);
            assert!(d.players.iter().all(|p| !p.ready));
            assert_eq!(d.players[2].team, 1);
        },
        _ => panic!(),
    }
}

#[test]
fn entered_message_answers_only_the_sender() {
    let mut r = Room::new();
    r.user_entering(user(1, "ann"));
    r.user_entering(user(2, "bob"));
    let out = r.proc_message(2, RoomMessage::Entered);
    assert_eq!(out.actions.len(), 1);
    assert_eq!(recipients(&out.actions[0]), vec![2]);
    assert!(out.spawn.is_none());
}

#[test]
fn disconnect_leaves_team_and_rebalances_newcomers() {
    let mut r = Room::new();
    r.user_entering(user(1, "a"));
    r.user_entering(user(2, "b"));
    r.user_entering(user(3, "c"));
    let a = r.user_disconnect(1);
    assert_eq!(room_teams(&a[0]), (vec![3], vec![2]));
    assert_eq!(recipients(&a[0]), vec![3, 2]);
    assert!(!r.contains(1));
    // leaving twice does nothing
    assert_eq!(r.user_disconnect(1).len(), 0);
    let a = r.user_entering(user(4, "d"));
    assert_eq!(room_teams(&a[0]), (vec![3, 4], vec![2]));
}

#[test]
fn all_ready_spawns_a_game() {
    let mut r = Room::new();
    r.user_entering(user(1, "a"));
    r.user_entering(user(2, "b"));
    let out = r.proc_message(1, RoomMessage::Ready);
    assert_eq!(out.actions.len(), 1);
    assert!(out.spawn.is_none());
    // a stranger's readiness changes nothing
    let out = r.proc_message(9, RoomMessage::Ready);
    assert_eq!(out.actions.len(), 0);
    let out = r.proc_message(2, RoomMessage::Ready);
    assert_eq!(out.actions.len(), 2);
    assert!(matches!(&out.actions[1], Action::Send(to, Outgoing::GameStart) if *to == vec![1, 2]));
    let sp = out.spawn.unwrap();
    assert_eq!(sp.players.len(), 2);
    assert_eq!(sp.teams[0], vec![1]);
    assert_eq!(sp.teams[1], vec![2]);
    assert!(sp.players[&1].ready && sp.players[&2].ready);
    // the room is empty again
    assert!(!r.contains(1) && !r.contains(2));
    assert_eq!(r.member_list(), Vec::<usize>::new());
}

fn two_player_game() -> Game {
    let mut r = Room::new();
    r.user_entering(user(1, "a"));
    r.user_entering(user(2, "b"));
    r.proc_message(1, RoomMessage::Ready);
    let sp = r.proc_message(2, RoomMessage::Ready).spawn.unwrap();
    Game::new(7, sp, vec![problem("q0", &["x", "y"], 1), problem("q1", &["z"], 0)])
}

#[test]
fn game_starts_when_everyone_entered() {
    let mut g = two_player_game();
    assert_eq!(g.index(), 7);
    assert_eq!(g.member_list(), vec![1, 2]);
    assert_eq!(g.proc_message(1, GameMessage::Entered).len(), 0);
    let acts = g.proc_message(2, GameMessage::Entered);
    assert_eq!(acts.len(), 2);
    match &acts[0] {
        Action::Send(to, Outgoing::PlayersData(7, infos)) => {
            assert_eq!(*to, vec![1, 2]);
            assert_eq!(infos.len(), 2);
            assert_eq!(infos[0].name, "a");
            assert!(infos[1].alive);
            assert_eq!(infos[1].team, 1);
        },
        _ => panic!(),
    }
    assert!(matches!(acts[1], Action::Schedule(7, 1000, Timer::AssignAll)));
}

#[test]
fn answer_right_then_fire() {
    let mut g = two_player_game();
    let acts = g.assign_problem_with(1, 0).unwrap();
    match &acts[0] {
        Action::Send(to, Outgoing::Problem(q, ans)) => {
            assert_eq!(*to, vec![1]);
            assert_eq!(q, "q0");
            assert_eq!(*ans, vec!["x".to_string(), "y".to_string()]);
        },
        _ => panic!(),
    }
    // already answering: no second problem
    assert!(g.assign_problem_with(1, 1).is_none());
    let acts = g.answer(1, 1).unwrap();
    assert!(matches!(acts[0], Action::Send(ref to, Outgoing::JudgeResult(true)) if *to == vec![1]));
    assert!(matches!(acts[1], Action::Send(ref to, Outgoing::StartFire) if *to == vec![1]));
    // a second answer is ignored
    assert!(g.answer(1, 1).is_none());
    assert_eq!(g.fire_candidates(1), Some(vec![2]));
    let acts = g.player_fire(1, Some(2)).unwrap();
    assert!(matches!(acts[0], Action::Send(ref to, Outgoing::FireResult(7, 1, Some(2))) if *to == vec![1, 2]));
    assert!(matches!(acts[1], Action::Schedule(7, 1000, Timer::Assign(1))));
    // waiting again: a new problem can be handed out
    assert!(g.assign_problem_with(1, 1).is_some());
}

#[test]
fn fire_at_a_non_candidate_hits_nobody() {
    let mut g = two_player_game();
    // the shooter itself is no candidate
    let acts = g.player_fire(1, Some(1)).unwrap();
    assert!(matches!(acts[0], Action::Send(_, Outgoing::FireResult(7, 1, None))));
    // nor is an id that is not in the game
    let acts = g.player_fire(2, Some(9)).unwrap();
    assert!(matches!(acts[0], Action::Send(_, Outgoing::FireResult(7, 2, None))));
    // an enemy is
    let acts = g.player_fire(2, Some(1)).unwrap();
    assert!(matches!(acts[0], Action::Send(_, Outgoing::FireResult(7, 2, Some(1)))));
}

#[test]
fn wrong_answer_waits_three_seconds() {
    let mut g = two_player_game();
    g.assign_problem_with(2, 1).unwrap();
    let acts = g.answer(2, 5).unwrap();
    assert!(matches!(acts[0], Action::Send(_, Outgoing::JudgeResult(false))));
    assert!(matches!(acts[1], Action::Schedule(7, 3000, Timer::Assign(2))));
    let acts = g.on_timer(Timer::Assign(2));
    assert_eq!(acts.len(), 1);
    assert!(matches!(&acts[0], Action::Send(to, Outgoing::Problem(_, _)) if *to == vec![2]));
}

#[test]
fn answering_without_a_problem_is_ignored() {
    let mut g = two_player_game();
    assert!(g.answer(1, 0).is_none());
    assert!(g.answer(99, 0).is_none());
}

#[test]
fn assign_all_hands_every_waiting_player_a_problem() {
    let mut g = two_player_game();
    g.assign_problem_with(1, 0).unwrap();
    let acts = g.on_timer(Timer::AssignAll);
    assert_eq!(acts.len(), 1);
    assert_eq!(recipients(&acts[0]), vec![2]);
    let acts = g.on_timer(Timer::AssignAll);
    assert_eq!(acts.len(), 0);
}

#[test]
fn random_problem_is_one_of_the_game() {
    let mut g = two_player_game();
    let acts = g.assign_problem(1).unwrap();
    match &acts[0] {
        Action::Send(_, Outgoing::Problem(q, _)) => assert!(q == "q0" || q == "q1"),
        _ => panic!(),
    }
    assert!(g.assign_problem(1).is_none());
    assert!(g.assign_problem(42).is_none());
}

#[test]
fn death_of_last_team_member_wins_for_the_other_team() {
    let mut g = two_player_game();
    let acts = g.user_dead(2).unwrap();
    assert_eq!(acts.len(), 1);
    assert!(matches!(&acts[0], Action::Send(to, Outgoing::TeamWin(0)) if *to == vec![1, 2]));
    // the dead cannot fire nor be a target
    assert!(g.fire_candidates(2).is_none());
    assert!(g.player_fire(2, None).is_none());
    assert_eq!(g.fire_candidates(1), Some(vec![]));
    assert!(g.user_dead(99).is_none());
}

#[test]
fn disconnect_counts_as_death() {
    let mut g = two_player_game();
    let acts = g.user_disconnect(1);
    assert!(matches!(&acts[0], Action::Send(_, Outgoing::TeamWin(1))));
}

#[test]
fn team_wins_only_when_all_of_other_team_dead() {
    let mut r = Room::new();
    for (i, n) in ["a", "b", "c", "d"].iter().enumerate() {
        r.user_entering(user(i + 1, n));
    }
    for i in 1..=4 {
        r.proc_message(i, RoomMessage::Ready);
    }
    // teams: [1, 3] and [2, 4]
    let mut r2 = Room::new();
    for (i, n) in ["a", "b", "c", "d"].iter().enumerate() {
        r2.user_entering(user(i + 1, n));
    }
    let mut sp = None;
    for i in 1..=4 {
        let out = r2.proc_message(i, RoomMessage::Ready);
        if out.spawn.is_some() {
            sp = out.spawn;
        }
    }
    let mut g = Game::new(0, sp.unwrap(), vec![problem("q", &["a"], 0)]);
    assert_eq!(g.member_list(), vec![1, 3, 2, 4]);
    assert_eq!(g.fire_candidates(1), Some(vec![2, 4]));
    assert_eq!(g.user_dead(1).unwrap().len(), 0);
    let acts = g.user_dead(3).unwrap();
    assert!(matches!(&acts[0], Action::Send(_, Outgoing::TeamWin(1))));
    let _ = PlayerState::Waiting;
}

#[test]
fn the_dead_stay_dead() {
    let mut g = two_player_game();
    g.user_dead(2).unwrap();
    g.on_timer(Timer::AssignAll);
    g.proc_message(2, GameMessage::Fire(Some(1)));
    g.proc_message(1, GameMessage::Entered);
    let acts = g.proc_message(2, GameMessage::Entered);
    match &acts[0] {
        Action::Send(_, Outgoing::PlayersData(_, infos)) => {
            assert!(infos[0].alive);
            assert!(!infos[1].alive);
        },
        _ => panic!(),
    }
    assert!(g.fire_candidates(2).is_none());
}
