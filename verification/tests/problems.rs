use game_server::problem::{arrange_problem, build_problems, shuffle_problem, RawProblem};

fn raw(q: &str, answers: &[&str]) -> RawProblem {
    RawProblem { question: q.to_string(), answers: answers.iter().map(|s| s.to_string()).collect() }
}

#[test]
fn arrange_follows_the_order() {
    let r = raw("1+1?", &["2", "3", "4"]);
    let p = arrange_problem(&r, &vec![2, 0, 1]);
    assert_eq!(p.question, "1+1?");
    assert_eq!(p.answers, vec!["4".to_string(), "2".to_string(), "3".to_string()]);
    assert_eq!(p.correct, 1);
}

#[test]
fn arrange_identity_keeps_first_correct() {
    let r = raw("q", &["right", "wrong"]);
    let p = arrange_problem(&r, &vec![0, 1]);
    assert_eq!(p.answers, vec!["right".to_string(), "wrong".to_string()]);
    assert_eq!(p.correct, 0);
}

#[test]
fn arrange_single_answer() {
    let r = raw("only", &["yes"]);
    let p = arrange_problem(&r, &vec![0]);
    assert_eq!(p.answers, vec!["yes".to_string()]);
    assert_eq!(p.correct, 0);
}

#[test]
fn shuffle_keeps_the_correct_answer() {
    let r = raw("capital of France?", &["Paris", "Lyon", "Nice", "Lille", "Metz"]);
    for _ in 0..50 {
        let p = shuffle_problem(&r);
        assert_eq!(p.question, r.question);
        assert_eq!(p.answers[p.correct], "Paris");
        let mut a = p.answers.clone();
        a.sort();
        let mut b = r.answers.clone();
        b.sort();
        assert_eq!(a, b);
    }
}

#[test]
fn build_problems_shuffles_each() {
    let raws = vec![raw("a", &["x", "y"]), raw("b", &["z"]), raw("c", &["1", "2", "3"])];
    let ps = build_problems(&raws);
    assert_eq!(ps.len(), 3);
    for (p, r) in ps.iter().zip(raws.iter()) {
        assert_eq!(p.question, r.question);
        assert_eq!(p.answers[p.correct], r.answers[0]);
        assert_eq!(p.answers.len(), r.answers.len());
    }
}
