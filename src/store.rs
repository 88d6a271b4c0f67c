use vstd::prelude::*;

verus! {

/// A store key: an opaque byte string, in practice a content digest.
pub type Key = Vec<u8>;

/// A stored value: an opaque byte string.
pub type Value = Vec<u8>;

/// The waiters registered for key `k`, oldest first; empty when none wait.
pub open spec fn waiters_of<W>(pending: Map<Seq<u8>, Seq<W>>, k: Seq<u8>) -> Seq<W> {
    if pending.contains_key(k) {
        pending[k]
    } else {
        Seq::empty()
    }
}

/// The pending-read table after a `NotifyRead(k)` from `w`: the waiter joins
/// the back of the queue of `k` when the key was not found, else nothing changes.
pub open spec fn after_notify<W>(
    pending: Map<Seq<u8>, Seq<W>>,
    k: Seq<u8>,
    w: W,
    found: bool,
) -> Map<Seq<u8>, Seq<W>> {
    if found {
        pending
    } else {
        pending.insert(k, waiters_of(pending, k).push(w))
    }
}

/// The pending-read table after a `Write(k, _)`: the queue of `k` is released
/// when the engine accepted the write, else nothing changes.
pub open spec fn after_write<W>(
    pending: Map<Seq<u8>, Seq<W>>,
    k: Seq<u8>,
    accepted: bool,
) -> Map<Seq<u8>, Seq<W>> {
    if accepted {
        pending.remove(k)
    } else {
        pending
    }
}

/// The waiters that a `Write(k, _)` releases, in the order they registered.
pub open spec fn released_by_write<W>(
    pending: Map<Seq<u8>, Seq<W>>,
    k: Seq<u8>,
    accepted: bool,
) -> Seq<W> {
    if accepted {
        waiters_of(pending, k)
    } else {
        Seq::empty()
    }
}

/// Single-shot waiters of `NotifyRead` commands, queued per key in the order
/// they arrived.
pub struct PendingReads<W> {
    entries: Vec<(Key, Vec<W>)>,
    table: Ghost<Map<Seq<u8>, Seq<W>>>,
}

impl<W> View for PendingReads<W> {
    type V = Map<Seq<u8>, Seq<W>>;

    closed spec fn view(&self) -> Map<Seq<u8>, Seq<W>> {
        self.table@
    }
}

/// Whether two byte strings are equal.
fn same_bytes(a: &[u8], b: &[u8]) -> (r: bool)
    ensures
        r == (a@ == b@),
{
    if a.len() != b.len() {
        return false;
    }
    let mut i: usize = 0;
    while i < a.len()
        invariant
            i <= a@.len() == b@.len(),
            forall|j: int| 0 <= j < i ==> a@[j] == b@[j],
        decreases a.len() - i,
    {
        if a[i] != b[i] {
            return false;
        }
        i = i + 1;
    }
    assert(a@ =~= b@);
    true
}

impl<W> PendingReads<W> {
    /// Each key has one entry, and the entries hold exactly the queues of the view.
    pub closed spec fn wf(&self) -> bool {
        &&& forall|i: int, j: int|
            0 <= i < j < self.entries@.len() ==> self.entries@[i].0@ != self.entries@[j].0@
        &&& forall|i: int|
            0 <= i < self.entries@.len() ==> self.table@.contains_key(
                #[trigger] self.entries@[i].0@,
            ) && self.table@[self.entries@[i].0@] == self.entries@[i].1@
        &&& forall|k: Seq<u8>|
            #[trigger] self.table@.contains_key(k) ==> exists|i: int|
                0 <= i < self.entries@.len() && self.entries@[i].0@ == k
    }

    /// A table with no waiters.
    pub fn new() -> (r: Self)
        ensures
            r.wf(),
            r@ == Map::<Seq<u8>, Seq<W>>::empty(),
    {
        PendingReads { entries: Vec::new(), table: Ghost(Map::empty()) }
    }

    /// The index of the entry of `key`, if there is one.
    fn position(&self, key: &[u8]) -> (r: Option<usize>)
        requires
            self.wf(),
        ensures
            match r {
                Some(i) => i < self.entries@.len() && self.entries@[i as int].0@ == key@,
                None => !self@.contains_key(key@),
            },
    {
        let mut i: usize = 0;
        while i < self.entries.len()
            invariant
                i <= self.entries@.len(),
                forall|j: int| 0 <= j < i ==> self.entries@[j].0@ != key@,
            decreases self.entries.len() - i,
        {
            if same_bytes(self.entries[i].0.as_slice(), key) {
                return Some(i);
            }
            i = i + 1;
        }
        None
    }

    /// Registers `waiter` at the back of the queue of `key`.
    pub fn park(&mut self, key: Key, waiter: W)
        requires
            old(self).wf(),
        ensures
            final(self).wf(),
            final(self)@ == old(self)@.insert(key@, waiters_of(old(self)@, key@).push(waiter)),
    {
        let ghost before = self.table@;
        let ghost k = key@;
        let ghost old_entries = self.entries@;
        match self.position(key.as_slice()) {
            Some(i) => {
                let (old_key, mut queue) = self.entries.swap_remove(i);
                queue.push(waiter);
                self.entries.push((old_key, queue));
                self.table = Ghost(before.insert(k, waiters_of(before, k).push(waiter)));
                proof {
                    let n = self.entries@.len();
                    assert(n == old_entries.len());
                    assert forall|q: Seq<u8>| #[trigger] self.table@.contains_key(q) implies exists|
                        a: int,
                    | 0 <= a < n && self.entries@[a].0@ == q by {
                        if q != k {
                            let j = choose|j: int| 0 <= j < n && old_entries[j].0@ == q;
                            if j == n - 1 {
                                assert(self.entries@[i as int].0@ == q);
                            } else {
                                assert(j != i);
                                assert(self.entries@[j].0@ == q);
                            }
                        } else {
                            assert(self.entries@[n - 1].0@ == q);
                        }
                    }
                }
            },
            None => {
                let mut queue: Vec<W> = Vec::new();
                queue.push(waiter);
                self.entries.push((key, queue));
                self.table = Ghost(before.insert(k, waiters_of(before, k).push(waiter)));
                proof {
                    let n = self.entries@.len();
                    assert forall|q: Seq<u8>| #[trigger] self.table@.contains_key(q) implies exists|
                        a: int,
                    | 0 <= a < n && self.entries@[a].0@ == q by {
                        if q != k {
                            let j = choose|j: int| 0 <= j < n - 1 && old_entries[j].0@ == q;
                            assert(self.entries@[j].0@ == q);
                        } else {
                            assert(self.entries@[n - 1].0@ == q);
                        }
                    }
                }
            },
        }
        proof {
            let n = self.entries@.len();
            assert(self.entries@[n - 1].0@ == k);
            assert forall|a: int| 0 <= a < n implies self.table@.contains_key(
                #[trigger] self.entries@[a].0@,
            ) && self.table@[self.entries@[a].0@] == self.entries@[a].1@ by {
                if a < n - 1 {
                    assert(self.entries@[a].0@ != k);
                }
            }
        }
    }

    /// Removes the queue of `key` and hands it back, oldest waiter first.
    pub fn take(&mut self, key: &[u8]) -> (r: Vec<W>)
        requires
            old(self).wf(),
        ensures
            final(self).wf(),
            r@ == waiters_of(old(self)@, key@),
            final(self)@ == old(self)@.remove(key@),
    {
        let ghost before = self.table@;
        match self.position(key) {
            Some(i) => {
                let (_, queue) = self.entries.swap_remove(i);
                self.table = Ghost(before.remove(key@));
                proof {
                    let n = self.entries@.len();
                    assert forall|a: int| 0 <= a < n implies self.table@.contains_key(
                        #[trigger] self.entries@[a].0@,
                    ) && self.table@[self.entries@[a].0@] == self.entries@[a].1@ by {
                        if a == i {
                            assert(self.entries@[a] == old(self).entries@[n as int]);
                        } else {
                            assert(self.entries@[a] == old(self).entries@[a]);
                        }
                    }
                    assert forall|q: Seq<u8>| #[trigger] self.table@.contains_key(q) implies exists|a: int|
                        0 <= a < n && self.entries@[a].0@ == q by {
                        let j = choose|j: int| 0 <= j < n + 1 && old(self).entries@[j].0@ == q;
                        if j == n {
                            assert(self.entries@[i as int].0@ == q);
                        } else {
                            assert(self.entries@[j].0@ == q);
                        }
                    }
                }
                queue
            },
            None => {
                proof {
                    assert(self.table@ =~= before.remove(key@));
                }
                Vec::new()
            },
        }
    }

    /// The table's part in a `Write(key, _)`, given whether the engine accepted
    /// the write: the waiters to hand the written value to, oldest first.
    pub fn on_write<E>(&mut self, key: &[u8], outcome: &Result<(), E>) -> (r: Vec<W>)
        requires
            old(self).wf(),
        ensures
            final(self).wf(),
            r@ == released_by_write(old(self)@, key@, outcome is Ok),
            final(self)@ == after_write(old(self)@, key@, outcome is Ok),
    {
        match outcome {
            Ok(()) => self.take(key),
            Err(_) => Vec::new(),
        }
    }

    /// The table's part in a `NotifyRead(key)` from `waiter`, given the engine's
    /// lookup of `key`: a found value or an engine error goes back to the waiter
    /// at once; a miss parks the waiter until the first write of `key`.
    pub fn on_notify<E>(&mut self, key: Key, waiter: W, lookup: Result<Option<Value>, E>) -> (r:
        Option<(W, Result<Value, E>)>)
        requires
            old(self).wf(),
        ensures
            final(self).wf(),
            final(self)@ == after_notify(old(self)@, key@, waiter, !(lookup matches Ok(None))),
            match lookup {
                Ok(Some(v)) => r == Some((waiter, Ok::<Value, E>(v))),
                Ok(None) => r is None,
                Err(e) => r == Some((waiter, Err::<Value, E>(e))),
            },
    {
        match lookup {
            Ok(Some(v)) => Some((waiter, Ok(v))),
            Ok(None) => {
                self.park(key, waiter);
                None
            },
            Err(e) => Some((waiter, Err(e))),
        }
    }
}

} // verus!
