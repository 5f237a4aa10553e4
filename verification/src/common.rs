use vstd::prelude::*;

verus! {

/// Identifier of one websocket connection (and of the user behind it).
pub type Id = usize;

/// The members of two teams, team 0 first.
pub fn concat_teams(teams: &[Vec<Id>; 2]) -> (v: Vec<Id>)
    ensures
        v@ == teams[0]@ + teams[1]@,
{
    let mut v: Vec<Id> = Vec::new();
    let mut t: usize = 0;
    while t < 2
        invariant
            t <= 2,
            t == 0 ==> v@ == Seq::<Id>::empty(),
            t == 1 ==> v@ == teams[0]@,
            t == 2 ==> v@ == teams[0]@ + teams[1]@,
        decreases 2 - t,
    {
        let ghost before = v@;
        let mut i: usize = 0;
        while i < teams[t].len()
            invariant
                t < 2,
                i <= teams[t as int]@.len(),
                v@ == before + teams[t as int]@.subrange(0, i as int),
            decreases teams[t as int]@.len() - i,
        {
            v.push(teams[t][i]);
            i = i + 1;
            assert(teams[t as int]@.subrange(0, i as int) =~= teams[t as int]@.subrange(0, (i - 1) as int).push(
                teams[t as int]@[i - 1],
            ));
        }
        assert(teams[t as int]@.subrange(0, i as int) =~= teams[t as int]@);
        assert(t == 0 ==> v@ =~= teams[0]@);
        assert(t == 1 ==> v@ =~= teams[0]@ + teams[1]@);
        t = t + 1;
    }
    v
}

/// The `i`-th member of two teams is in one of them.
pub proof fn lemma_member_in_teams(team0: Seq<Id>, team1: Seq<Id>, i: int)
    requires
        0 <= i < (team0 + team1).len(),
    ensures
        team0.contains((team0 + team1)[i]) || team1.contains((team0 + team1)[i]),
{
    if i < team0.len() {
        assert(team0[i] == (team0 + team1)[i]);
    } else {
        assert(team1[i - team0.len()] == (team0 + team1)[i]);
    }
}

} // verus!
