use vstd::prelude::*;

verus! {

/// The position of the first success among race outcomes taken in the order the
/// members finished, if any member succeeded.
pub open spec fn first_success(outcomes: Seq<bool>) -> Option<int>
    decreases outcomes.len(),
{
    if outcomes.len() == 0 {
        None
    } else if outcomes[0] {
        Some(0)
    } else {
        match first_success(outcomes.drop_first()) {
            Some(i) => Some(i + 1),
            None => None,
        }
    }
}

/// What a race does after one of its members finishes.
pub enum RaceStep {
    /// This member's answer is the race's; the others are dropped.
    Won,
    /// Wait for another member.
    Wait,
    /// Every member failed.
    Exhausted,
}

/// A race over the members of a hybrid upstream: the first to succeed wins.
pub struct Race {
    pending: usize,
    done: bool,
}

impl Race {
    /// The members that have not finished yet.
    pub closed spec fn pending_spec(&self) -> nat {
        self.pending as nat
    }

    /// Whether the race is decided.
    pub closed spec fn done_spec(&self) -> bool {
        self.done
    }

    /// A race over `members` members; one with no member is exhausted at once.
    pub fn new(members: usize) -> (r: Self)
        ensures
            r.pending_spec() == members,
            r.done_spec() == (members == 0),
    {
        Race { pending: members, done: members == 0 }
    }

    /// Whether the race is decided.
    pub fn is_done(&self) -> (r: bool)
        ensures
            r == self.done_spec(),
    {
        self.done
    }

    /// Takes the outcome of the next member to finish.
    pub fn step(&mut self, ok: bool) -> (r: RaceStep)
        requires
            !old(self).done_spec(),
            old(self).pending_spec() > 0,
        ensures
            final(self).pending_spec() == old(self).pending_spec() - 1,
            ok ==> r == RaceStep::Won && final(self).done_spec(),
            !ok && old(self).pending_spec() == 1 ==> r == RaceStep::Exhausted
                && final(self).done_spec(),
            !ok && old(self).pending_spec() > 1 ==> r == RaceStep::Wait && !final(self).done_spec(),
    {
        self.pending = self.pending - 1;
        if ok {
            self.done = true;
            RaceStep::Won
        } else if self.pending == 0 {
            self.done = true;
            RaceStep::Exhausted
        } else {
            RaceStep::Wait
        }
    }
}

/// Runs a race over outcomes given in the order the members finished: the
/// position of the winner, or `None` when all failed.
pub fn race_winner(outcomes: &Vec<bool>) -> (r: Option<usize>)
    ensures
        r matches Some(i) ==> first_success(outcomes@) == Some(i as int),
        r is None ==> first_success(outcomes@) is None,
{
    let n = outcomes.len();
    let mut race = Race::new(n);
    let mut i: usize = 0;
    proof {
        assert(outcomes@.subrange(0, n as int) =~= outcomes@);
    }
    while i < n
        invariant
            n == outcomes@.len(),
            i <= n,
            race.pending_spec() == n - i,
            race.done_spec() == (n - i == 0),
            first_success(outcomes@) == (match first_success(outcomes@.subrange(i as int, n as int)) {
                Some(j) => Some(j + i),
                None => None,
            }),
        decreases n - i,
    {
        proof {
            assert(outcomes@.subrange(i as int, n as int).drop_first() =~= outcomes@.subrange(
                i + 1,
                n as int,
            ));
        }
        match race.step(outcomes[i]) {
            RaceStep::Won => {
                return Some(i);
            },
            _ => {},
        }
        i = i + 1;
    }
    None
}

/// In a race, the first member to succeed wins, whatever failed before it; when
/// every member fails, the race fails.
pub proof fn lemma_first_success_wins(outcomes: Seq<bool>)
    ensures
        first_success(outcomes) matches Some(i) ==> 0 <= i < outcomes.len() && outcomes[i] && forall|
            j: int,
        |
            0 <= j < i ==> !#[trigger] outcomes[j],
        first_success(outcomes) is None <==> forall|j: int|
            0 <= j < outcomes.len() ==> !#[trigger] outcomes[j],
    decreases outcomes.len(),
{
    if outcomes.len() > 0 {
        let rest = outcomes.drop_first();
        lemma_first_success_wins(rest);
        assert forall|j: int| 1 <= j < outcomes.len() implies outcomes[j] == rest[j - 1] by {}
        if !outcomes[0] && first_success(rest) is None {
            assert forall|j: int| 0 <= j < outcomes.len() implies !#[trigger] outcomes[j] by {
                if j > 0 {
                    assert(!rest[j - 1]);
                }
            }
        }
    }
}

} // verus!
