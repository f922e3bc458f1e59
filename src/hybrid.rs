use vstd::prelude::*;

use crate::builder::Upstream;
use crate::filter::Filter;

verus! {

/// How many hybrid levels a race may nest.
pub const MAX_NESTING: usize = 32;

/// Why the members of a race cannot be found.
pub enum HybridError {
    /// A tag that the race names has no upstream.
    Missing(u32),
    /// A hybrid upstream names itself, directly or through other hybrids.
    Cycle(u32),
    /// The hybrids nest more deeply than allowed.
    TooDeep,
}

/// The pooled upstreams that a race for `tag` runs, in order, where `path` holds the
/// hybrids being expanded and `fuel` the levels still allowed.
pub open spec fn leaves_of(m: Map<u32, Upstream>, tag: u32, path: Seq<u32>, fuel: nat) -> Result<
    Seq<u32>,
    HybridError,
>
    decreases fuel, 0nat,
{
    if !m.contains_key(tag) {
        Err(HybridError::Missing(tag))
    } else if path.contains(tag) {
        Err(HybridError::Cycle(tag))
    } else {
        match m[tag] {
            Upstream::Pooled(_) => Ok(seq![tag]),
            Upstream::Hybrid(ts) => if fuel == 0 {
                Err(HybridError::TooDeep)
            } else {
                leaves_of_all(m, ts@, path.push(tag), (fuel - 1) as nat)
            },
        }
    }
}

/// The members of every tag of `ts` in turn, or the first failure.
pub open spec fn leaves_of_all(m: Map<u32, Upstream>, ts: Seq<u32>, path: Seq<u32>, fuel: nat) -> Result<
    Seq<u32>,
    HybridError,
>
    decreases fuel, ts.len(),
{
    if ts.len() == 0 {
        Ok(seq![])
    } else {
        match leaves_of_all(m, ts.drop_last(), path, fuel) {
            Err(e) => Err(e),
            Ok(front) => match leaves_of(m, ts.last(), path, fuel) {
                Err(e) => Err(e),
                Ok(back) => Ok(front + back),
            },
        }
    }
}

fn contains(v: &Vec<u32>, x: u32) -> (r: bool)
    ensures
        r == v@.contains(x),
{
    let mut i: usize = 0;
    while i < v.len()
        invariant
            i <= v@.len(),
            forall|j: int| 0 <= j < i ==> v@[j] != x,
        decreases v.len() - i,
    {
        if v[i] == x {
            return true;
        }
        i = i + 1;
    }
    false
}

impl Filter {
    fn leaves(&self, tag: u32, path: &mut Vec<u32>, fuel: usize) -> (r: Result<Vec<u32>, HybridError>)
        ensures
            final(path)@ == old(path)@,
            r matches Ok(v) ==> leaves_of(self.upstreams(), tag, old(path)@, fuel as nat) == Ok::<
                Seq<u32>,
                HybridError,
            >(v@),
            r matches Err(e) ==> leaves_of(self.upstreams(), tag, old(path)@, fuel as nat)
                == Err::<Seq<u32>, HybridError>(e),
        decreases fuel, 0nat,
    {
        match self.upstream(tag) {
            None => Err(HybridError::Missing(tag)),
            Some(u) => {
                if contains(path, tag) {
                    return Err(HybridError::Cycle(tag));
                }
                match u {
                    Upstream::Pooled(_) => {
                        let mut v: Vec<u32> = Vec::new();
                        v.push(tag);
                        Ok(v)
                    },
                    Upstream::Hybrid(ts) => {
                        if fuel == 0 {
                            return Err(HybridError::TooDeep);
                        }
                        path.push(tag);
                        let r = self.leaves_all(ts, path, fuel - 1);
                        path.pop();
                        proof {
                            assert(path@ =~= old(path)@);
                        }
                        r
                    },
                }
            },
        }
    }

    fn leaves_all(&self, ts: &Vec<u32>, path: &mut Vec<u32>, fuel: usize) -> (r: Result<Vec<u32>, HybridError>)
        ensures
            final(path)@ == old(path)@,
            r matches Ok(v) ==> leaves_of_all(self.upstreams(), ts@, old(path)@, fuel as nat) == Ok::<
                Seq<u32>,
                HybridError,
            >(v@),
            r matches Err(e) ==> leaves_of_all(self.upstreams(), ts@, old(path)@, fuel as nat)
                == Err::<Seq<u32>, HybridError>(e),
        decreases fuel, ts@.len(),
    {
        let ghost p = path@;
        let mut acc: Vec<u32> = Vec::new();
        let mut i: usize = 0;
        proof {
            assert(ts@.subrange(0, 0) =~= Seq::<u32>::empty());
        }
        let mut failed: Option<HybridError> = None;
        while i < ts.len()
            invariant_except_break
                failed is None,
                leaves_of_all(self.upstreams(), ts@.subrange(0, i as int), p, fuel as nat) == Ok::<
                    Seq<u32>,
                    HybridError,
                >(acc@),
            invariant
                i <= ts@.len(),
                path@ == p,
            ensures
                path@ == p,
                failed is None ==> i == ts@.len(),
                failed is None ==> leaves_of_all(self.upstreams(), ts@.subrange(0, i as int), p, fuel as nat)
                    == Ok::<Seq<u32>, HybridError>(acc@),
                failed matches Some(e) ==> leaves_of_all(self.upstreams(), ts@, p, fuel as nat)
                    == Err::<Seq<u32>, HybridError>(e),
            decreases ts@.len() - i,
        {
            proof {
                assert(ts@.subrange(0, i + 1).drop_last() =~= ts@.subrange(0, i as int));
            }
            match self.leaves(ts[i], path, fuel) {
                Err(e) => {
                    proof {
                        lemma_first_error(self.upstreams(), ts@, p, fuel as nat, i as int);
                    }
                    failed = Some(e);
                    break;
                },
                Ok(mut v) => {
                    acc.append(&mut v);
                },
            }
            i = i + 1;
        }
        match failed {
            Some(e) => Err(e),
            None => {
                proof {
                    assert(ts@.subrange(0, i as int) =~= ts@);
                }
                Ok(acc)
            },
        }
    }

    /// The pooled upstreams that a query routed to `tag` races, hybrids expanded
    /// in order; fails on a tag without an upstream, on a hybrid that reaches
    /// itself, and on nesting deeper than `MAX_NESTING`.
    pub fn race_members(&self, tag: u32) -> (r: Result<Vec<u32>, HybridError>)
        ensures
            r matches Ok(v) ==> leaves_of(self.upstreams(), tag, seq![], MAX_NESTING as nat) == Ok::<
                Seq<u32>,
                HybridError,
            >(v@),
            r matches Err(e) ==> leaves_of(self.upstreams(), tag, seq![], MAX_NESTING as nat)
                == Err::<Seq<u32>, HybridError>(e),
    {
        let mut path: Vec<u32> = Vec::new();
        proof {
            assert(path@ =~= seq![]);
        }
        self.leaves(tag, &mut path, MAX_NESTING)
    }
}

/// Where the members of `ts[..i]` were found and those of `ts[i]` were not, the
/// members of `ts[..i + 1]` fail likewise, and so do those of all of `ts`.
proof fn lemma_first_error(m: Map<u32, Upstream>, ts: Seq<u32>, path: Seq<u32>, fuel: nat, i: int)
    requires
        0 <= i < ts.len(),
        leaves_of_all(m, ts.subrange(0, i), path, fuel) is Ok,
        leaves_of(m, ts[i], path, fuel) is Err,
    ensures
        leaves_of_all(m, ts, path, fuel) == leaves_of(m, ts[i], path, fuel),
    decreases ts.len() - i,
{
    assert(ts.subrange(0, i + 1).drop_last() =~= ts.subrange(0, i));
    lemma_error_extends(m, ts, path, fuel, i + 1);
}

proof fn lemma_error_extends(m: Map<u32, Upstream>, ts: Seq<u32>, path: Seq<u32>, fuel: nat, j: int)
    requires
        0 < j <= ts.len(),
        leaves_of_all(m, ts.subrange(0, j), path, fuel) is Err,
    ensures
        leaves_of_all(m, ts, path, fuel) == leaves_of_all(m, ts.subrange(0, j), path, fuel),
    decreases ts.len() - j,
{
    if j < ts.len() {
        assert(ts.subrange(0, j + 1).drop_last() =~= ts.subrange(0, j));
        lemma_error_extends(m, ts, path, fuel, j + 1);
    } else {
        assert(ts.subrange(0, j) =~= ts);
    }
}

} // verus!
