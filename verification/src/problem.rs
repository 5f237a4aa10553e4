use vstd::prelude::*;
use rand::Rng;

verus! {

/// A problem as the problem file states it: its first answer is the correct one.
pub struct RawProblem {
    pub question: String,
    pub answers: Vec<String>,
}

/// A problem as players see it: the answers in a shuffled order, with the
/// index of the correct one.
pub struct Problem {
    pub question: String,
    pub answers: Vec<String>,
    pub correct: usize,
}

pub struct RawProblemView {
    pub question: Seq<char>,
    pub answers: Seq<Seq<char>>,
}

pub struct ProblemView {
    pub question: Seq<char>,
    pub answers: Seq<Seq<char>>,
    pub correct: nat,
}

/// The texts of a list of strings.
pub open spec fn texts(v: Seq<String>) -> Seq<Seq<char>> {
    v.map_values(|s: String| s@)
}

impl View for RawProblem {
    type V = RawProblemView;

    open spec fn view(&self) -> RawProblemView {
        RawProblemView { question: self.question@, answers: texts(self.answers@) }
    }
}

impl View for Problem {
    type V = ProblemView;

    open spec fn view(&self) -> ProblemView {
        ProblemView {
            question: self.question@,
            answers: texts(self.answers@),
            correct: self.correct as nat,
        }
    }
}

/// `ord` lists each of `0..n` exactly once.
pub open spec fn is_permutation(ord: Seq<usize>, n: nat) -> bool {
    &&& n <= usize::MAX + 1
    &&& ord.len() == n
    &&& ord.no_duplicates()
    &&& forall|i: int| 0 <= i < n ==> #[trigger] ord[i] < n
}

/// `p` is `raw` with its answers taken in the order `ord`, and `correct`
/// the place where the first (correct) answer of `raw` went.
pub open spec fn arranged_by(raw: RawProblemView, p: ProblemView, ord: Seq<usize>) -> bool {
    &&& p.question == raw.question
    &&& p.answers.len() == raw.answers.len()
    &&& forall|i: int| 0 <= i < ord.len() ==> #[trigger] p.answers[i] == raw.answers[ord[i] as int]
    &&& p.correct < ord.len()
    &&& ord[p.correct as int] == 0
}

/// `p` shows the answers of `raw` in some order, with `correct` pointing at
/// the answer that `raw` lists first.
pub open spec fn is_shuffle_of(raw: RawProblemView, p: ProblemView) -> bool {
    exists|ord: Seq<usize>| is_permutation(ord, raw.answers.len()) && #[trigger] arranged_by(raw, p, ord)
}

/// A raw problem can be shuffled only if it has an answer to mark correct.
pub open spec fn raw_problem_ok(raw: RawProblemView) -> bool {
    raw.answers.len() > 0
}

/// `rand`'s `Rng::shuffle` with the thread-local generator: reorders `v` at
/// random. Whatever the outcome, `v` holds the same items as before.
#[verifier::external_body]
fn shuffle_indices(v: &mut Vec<usize>)
    ensures
        final(v)@.to_multiset() == old(v)@.to_multiset(),
        final(v)@.len() == old(v)@.len(),
{
    rand::thread_rng().shuffle(v.as_mut_slice())
}

/// The identity order `0..n`.
fn identity_order(n: usize) -> (ord: Vec<usize>)
    ensures
        ord@.len() == n,
        forall|i: int| 0 <= i < n ==> #[trigger] ord@[i] == i,
{
    let mut ord: Vec<usize> = Vec::new();
    let mut i: usize = 0;
    while i < n
        invariant
            i <= n,
            ord@.len() == i,
            forall|j: int| 0 <= j < i ==> #[trigger] ord@[j] == j,
        decreases n - i,
    {
        ord.push(i);
        i = i + 1;
    }
    ord
}

proof fn lemma_identity_is_permutation(ord: Seq<usize>, n: nat)
    requires
        ord.len() == n,
        n <= usize::MAX,
        forall|i: int| 0 <= i < n ==> #[trigger] ord[i] == i,
    ensures
        is_permutation(ord, n),
{
    assert forall|i: int, j: int| 0 <= i < ord.len() && 0 <= j < ord.len() && i != j implies ord[i]
        != ord[j] by {}
}

/// A reordering of a sequence that lists each of `0..n` once lists each of
/// them once too.
proof fn lemma_shuffled_permutation(a: Seq<usize>, b: Seq<usize>, n: nat)
    requires
        is_permutation(a, n),
        b.to_multiset() == a.to_multiset(),
        b.len() == a.len(),
    ensures
        is_permutation(b, n),
{
    broadcast use vstd::multiset::group_multiset_axioms;
    broadcast use vstd::seq_lib::group_to_multiset_ensures;

    assert forall|i: int| 0 <= i < n implies #[trigger] b[i] < n by {
        assert(b.to_multiset().count(b[i]) > 0);
        assert(a.to_multiset().count(b[i]) > 0);
        assert(a.contains(b[i]));
    }
    assert forall|i: int, j: int| 0 <= i < b.len() && 0 <= j < b.len() && i != j implies b[i]
        != b[j] by {
        if b[i] == b[j] {
            lemma_count_two(b, i, j);
            lemma_no_dup_count(a, b[i]);
        }
    }
}

proof fn lemma_no_dup_count(s: Seq<usize>, x: usize)
    requires
        s.no_duplicates(),
    ensures
        s.to_multiset().count(x) <= 1,
    decreases s.len(),
{
    broadcast use vstd::multiset::group_multiset_axioms;
    broadcast use vstd::seq_lib::group_to_multiset_ensures;

    if s.len() > 0 {
        let t = s.drop_last();
        assert(t.no_duplicates());
        lemma_no_dup_count(t, x);
        assert(s =~= t.push(s.last()));
        if s.last() == x {
            assert(!t.contains(x));
        }
    }
}

proof fn lemma_count_two(s: Seq<usize>, i: int, j: int)
    requires
        0 <= i < s.len(),
        0 <= j < s.len(),
        i != j,
        s[i] == s[j],
    ensures
        s.to_multiset().count(s[i]) >= 2,
    decreases s.len(),
{
    broadcast use vstd::multiset::group_multiset_axioms;
    broadcast use vstd::seq_lib::group_to_multiset_ensures;

    let t = s.drop_last();
    assert(s =~= t.push(s.last()));
    if i == s.len() - 1 {
        assert(t.contains(s[j]));
        assert(t[j] == s[j]);
    } else if j == s.len() - 1 {
        assert(t[i] == s[i]);
    } else {
        lemma_count_two(t, i, j);
    }
}

/// The problem `raw` with its answers taken in the order `ord`.
pub fn arrange_problem(raw: &RawProblem, ord: &Vec<usize>) -> (p: Problem)
    requires
        raw_problem_ok(raw@),
        is_permutation(ord@, raw@.answers.len()),
    ensures
        arranged_by(raw@, p@, ord@),
{
    let n = raw.answers.len();
    let mut answers: Vec<String> = Vec::new();
    let mut correct: usize = 0;
    let mut found = false;
    let mut i: usize = 0;
    while i < n
        invariant
            n == raw.answers@.len(),
            is_permutation(ord@, n as nat),
            i <= n,
            answers@.len() == i,
            forall|j: int| 0 <= j < i ==> #[trigger] answers@[j]@ == raw.answers@[ord@[j] as int]@,
            found ==> correct < i && ord@[correct as int] == 0,
            !found ==> forall|j: int| 0 <= j < i ==> #[trigger] ord@[j] != 0,
        decreases n - i,
    {
        let k = ord[i];
        answers.push(raw.answers[k].clone());
        if k == 0 && !found {
            correct = i;
            found = true;
        }
        i = i + 1;
    }
    if !found {
        proof {
            // `0 < n` appears somewhere in a permutation of `0..n`.
            assert(ord@.to_multiset().count(0usize) >= 1) by {
                lemma_permutation_contains(ord@, n as nat, 0);
            }
            broadcast use vstd::seq_lib::group_to_multiset_ensures;
            assert(ord@.contains(0usize));
        }
    }
    let p = Problem { question: raw.question.clone(), answers, correct };
    assert(texts(p.answers@).len() == n);
    p
}

/// Every number below `n` occurs in a permutation of `0..n`.
proof fn lemma_permutation_contains(ord: Seq<usize>, n: nat, x: usize)
    requires
        is_permutation(ord, n),
        x < n,
    ensures
        ord.to_multiset().count(x) >= 1,
{
    broadcast use vstd::multiset::group_multiset_axioms;
    broadcast use vstd::seq_lib::group_to_multiset_ensures;

    // The numbers of `ord` are `n` distinct values below `n`, so they are all of them.
    let s = ord.to_set();
    ord.unique_seq_to_set();
    assert(s.len() == n);
    assert(s.subset_of(Set::new(|v: usize| v < n)));
    lemma_small_set_is_full(s, n, x);
}

proof fn lemma_small_set_is_full(s: Set<usize>, n: nat, x: usize)
    requires
        s.finite(),
        s.len() == n,
        forall|v: usize| s.contains(v) ==> v < n,
        x < n,
        n <= usize::MAX + 1,
    ensures
        s.contains(x),
{
    if !s.contains(x) {
        let below = Set::new(|v: usize| v < n);
        let others = below.remove(x);
        assert(s.subset_of(others));
        lemma_below_len(n);
        vstd::set_lib::lemma_len_subset(s, others);
    }
}

proof fn lemma_below_len(n: nat)
    requires
        n <= usize::MAX + 1,
    ensures
        Set::new(|v: usize| v < n).finite(),
        Set::new(|v: usize| v < n).len() == n,
    decreases n,
{
    if n == 0 {
        assert(Set::new(|v: usize| v < n) =~= Set::empty());
    } else {
        lemma_below_len((n - 1) as nat);
        let m = (n - 1) as usize;
        assert(Set::new(|v: usize| v < n) =~= Set::new(|v: usize| v < (n - 1) as nat).insert(m));
    }
}

/// The problem `raw` with its answers in a random order.
pub fn shuffle_problem(raw: &RawProblem) -> (p: Problem)
    requires
        raw_problem_ok(raw@),
    ensures
        is_shuffle_of(raw@, p@),
{
    let n = raw.answers.len();
    let mut ord = identity_order(n);
    proof {
        lemma_identity_is_permutation(ord@, n as nat);
    }
    let ghost before = ord@;
    shuffle_indices(&mut ord);
    proof {
        lemma_shuffled_permutation(before, ord@, n as nat);
    }
    let p = arrange_problem(raw, &ord);
    assert(arranged_by(raw@, p@, ord@));
    p
}

/// Every problem of the file with its answers freshly shuffled.
pub fn build_problems(raws: &Vec<RawProblem>) -> (ps: Vec<Problem>)
    requires
        forall|i: int| 0 <= i < raws@.len() ==> raw_problem_ok(#[trigger] raws@[i]@),
    ensures
        ps@.len() == raws@.len(),
        forall|i: int| 0 <= i < raws@.len() ==> is_shuffle_of(#[trigger] raws@[i]@, ps@[i]@),
{
    let mut ps: Vec<Problem> = Vec::new();
    let mut i: usize = 0;
    while i < raws.len()
        invariant
            i <= raws@.len(),
            ps@.len() == i,
            forall|j: int| 0 <= j < raws@.len() ==> raw_problem_ok(#[trigger] raws@[j]@),
            forall|j: int| 0 <= j < i ==> is_shuffle_of(#[trigger] raws@[j]@, ps@[j]@),
        decreases raws@.len() - i,
    {
        let p = shuffle_problem(&raws[i]);
        ps.push(p);
        i = i + 1;
    }
    ps
}

/// However the answers were shuffled, the answer marked correct is the one
/// the problem file lists first, and every answer of the file is shown.
pub proof fn lemma_shuffle_keeps_correct_answer(raw: RawProblemView, p: ProblemView)
    requires
        is_shuffle_of(raw, p),
    ensures
        p.correct < p.answers.len(),
        p.answers[p.correct as int] == raw.answers[0],
        p.answers.len() == raw.answers.len(),
        forall|k: int| 0 <= k < raw.answers.len() ==> p.answers.contains(#[trigger] raw.answers[k]),
{
    let ord = choose|ord: Seq<usize>| is_permutation(ord, raw.answers.len()) && #[trigger] arranged_by(raw, p, ord);
    assert(p.answers[p.correct as int] == raw.answers[ord[p.correct as int] as int]);
    assert forall|k: int| 0 <= k < raw.answers.len() implies p.answers.contains(#[trigger] raw.answers[k]) by {
        broadcast use vstd::seq_lib::group_to_multiset_ensures;
        lemma_permutation_contains(ord, raw.answers.len(), k as usize);
        assert(ord.contains(k as usize));
        let i = choose|i: int| 0 <= i < ord.len() && ord[i] == k as usize;
        assert(p.answers[i] == raw.answers[k]);
    }
}

} // verus!
