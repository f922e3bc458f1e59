use vstd::prelude::*;

verus! {

/// The bookkeeping of a connection pool over one transport: which connections
/// are idle and may be reused, and the identifier the next new connection gets.
/// A connection is created only when no idle one is left, goes back to the idle
/// set when it is released healthy, and is discarded otherwise.
pub struct ConnPool {
    idle: Vec<u64>,
    next_id: u64,
    timeout: u64,
}

impl ConnPool {
    /// The idle connections, oldest first.
    pub closed spec fn idle_spec(&self) -> Seq<u64> {
        self.idle@
    }

    /// The identifier of the next connection to be created; every earlier one is below it.
    pub closed spec fn next_id_spec(&self) -> u64 {
        self.next_id
    }

    /// The timeout, in seconds, of each query.
    pub closed spec fn timeout_spec(&self) -> u64 {
        self.timeout
    }

    /// The idle connections are distinct, and each was created by this pool.
    pub open spec fn wf(&self) -> bool {
        &&& self.idle_spec().no_duplicates()
        &&& forall|i: int|
            0 <= i < self.idle_spec().len() ==> #[trigger] self.idle_spec()[i] < self.next_id_spec()
    }

    /// An empty pool whose queries time out after `timeout` seconds.
    pub fn new(timeout: u64) -> (r: Self)
        ensures
            r.wf(),
            r.idle_spec() == Seq::<u64>::empty(),
            r.next_id_spec() == 0,
            r.timeout_spec() == timeout,
    {
        ConnPool { idle: Vec::new(), next_id: 0, timeout }
    }

    /// The timeout, in seconds, of each query.
    pub fn timeout(&self) -> (r: u64)
        ensures
            r == self.timeout_spec(),
    {
        self.timeout
    }

    /// The connection a query is to use: the most recently released idle one, else
    /// a new one; `None` only when no identifier is left.
    pub fn acquire(&mut self) -> (r: Option<u64>)
        requires
            old(self).wf(),
        ensures
            final(self).wf(),
            final(self).timeout_spec() == old(self).timeout_spec(),
            old(self).idle_spec().len() > 0 ==> r == Some(old(self).idle_spec().last())
                && final(self).idle_spec() == old(self).idle_spec().drop_last()
                && final(self).next_id_spec() == old(self).next_id_spec(),
            old(self).idle_spec().len() == 0 && old(self).next_id_spec() < u64::MAX
                ==> r == Some(old(self).next_id_spec())
                && final(self).idle_spec() == old(self).idle_spec()
                && final(self).next_id_spec() == old(self).next_id_spec() + 1,
            old(self).idle_spec().len() == 0 && old(self).next_id_spec() == u64::MAX
                ==> r is None && final(self).idle_spec() == old(self).idle_spec()
                && final(self).next_id_spec() == old(self).next_id_spec(),
    {
        match self.idle.pop() {
            Some(id) => {
                proof {
                    assert forall|i: int, j: int|
                        0 <= i < j < self.idle@.len() implies self.idle@[i] != self.idle@[j] by {
                        assert(self.idle@[i] == old(self).idle@[i]);
                        assert(self.idle@[j] == old(self).idle@[j]);
                    }
                    assert forall|i: int| 0 <= i < self.idle@.len() implies #[trigger] self.idle@[i]
                        < self.next_id by {
                        assert(self.idle@[i] == old(self).idle@[i]);
                    }
                }
                Some(id)
            },
            None => {
                if self.next_id < u64::MAX {
                    let id = self.next_id;
                    self.next_id = self.next_id + 1;
                    Some(id)
                } else {
                    None
                }
            },
        }
    }

    /// Hands a connection back: kept for reuse when it is healthy, discarded when
    /// it failed or its query was cancelled midway.
    pub fn release(&mut self, id: u64, healthy: bool)
        requires
            old(self).wf(),
            id < old(self).next_id_spec(),
            !old(self).idle_spec().contains(id),
        ensures
            final(self).wf(),
            final(self).timeout_spec() == old(self).timeout_spec(),
            final(self).next_id_spec() == old(self).next_id_spec(),
            healthy ==> final(self).idle_spec() == old(self).idle_spec().push(id),
            !healthy ==> final(self).idle_spec() == old(self).idle_spec(),
    {
        if healthy {
            self.idle.push(id);
            proof {
                assert forall|i: int, j: int|
                    0 <= i < j < self.idle@.len() implies self.idle@[i] != self.idle@[j] by {
                    if j == self.idle@.len() - 1 {
                        assert(old(self).idle@[i] == self.idle@[i]);
                    } else {
                        assert(self.idle@[i] == old(self).idle@[i]);
                        assert(self.idle@[j] == old(self).idle@[j]);
                    }
                }
                assert forall|i: int| 0 <= i < self.idle@.len() implies #[trigger] self.idle@[i]
                    < self.next_id by {
                    if i < old(self).idle@.len() {
                        assert(self.idle@[i] == old(self).idle@[i]);
                    }
                }
            }
        }
    }
}

} // verus!
