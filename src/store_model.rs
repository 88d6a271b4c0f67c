use vstd::prelude::*;
use crate::store::{after_notify, after_write, released_by_write, waiters_of};

verus! {

/// A command to the store actor, as the model sees it; `W` names the waiter
/// that sent a `NotifyRead`.
pub enum Command<W> {
    Write(Seq<u8>, Seq<u8>),
    Read(Seq<u8>),
    NotifyRead(Seq<u8>, W),
}

/// The store actor's state: what the engine holds, and who waits for which key.
pub struct StoreState<W> {
    pub contents: Map<Seq<u8>, Seq<u8>>,
    pub pending: Map<Seq<u8>, Seq<W>>,
}

/// What a point read of `k` answers.
pub open spec fn lookup<W>(s: StoreState<W>, k: Seq<u8>) -> Option<Seq<u8>> {
    if s.contents.contains_key(k) {
        Some(s.contents[k])
    } else {
        None
    }
}

/// The state after the actor dequeues `c`, with an engine that accepts every write.
pub open spec fn step<W>(s: StoreState<W>, c: Command<W>) -> StoreState<W> {
    match c {
        Command::Write(k, v) => StoreState {
            contents: s.contents.insert(k, v),
            pending: after_write(s.pending, k, true),
        },
        Command::Read(_) => s,
        Command::NotifyRead(k, w) => StoreState {
            contents: s.contents,
            pending: after_notify(s.pending, k, w, s.contents.contains_key(k)),
        },
    }
}

/// The values handed to waiters while the actor processes `c` in state `s`, in
/// the order they are handed out.
pub open spec fn delivered<W>(s: StoreState<W>, c: Command<W>) -> Seq<(W, Seq<u8>)> {
    match c {
        Command::Write(k, v) => released_by_write(s.pending, k, true).map_values(|w: W| (w, v)),
        Command::Read(_) => Seq::empty(),
        Command::NotifyRead(k, w) => if s.contents.contains_key(k) {
            seq![(w, s.contents[k])]
        } else {
            Seq::empty()
        },
    }
}

/// The state after the actor dequeues `cmds` in order.
pub open spec fn run<W>(s: StoreState<W>, cmds: Seq<Command<W>>) -> StoreState<W>
    decreases cmds.len(),
{
    if cmds.len() == 0 {
        s
    } else {
        step(run(s, cmds.drop_last()), cmds.last())
    }
}

/// The value of the most recent `Write` of `k` among `cmds`, or what `s` held
/// for `k` when `cmds` writes no such key.
pub open spec fn latest_write<W>(s: StoreState<W>, cmds: Seq<Command<W>>, k: Seq<u8>) -> Option<
    Seq<u8>,
>
    decreases cmds.len(),
{
    if cmds.len() == 0 {
        lookup(s, k)
    } else {
        match cmds.last() {
            Command::Write(k2, v) => if k2 == k {
                Some(v)
            } else {
                latest_write(s, cmds.drop_last(), k)
            },
            _ => latest_write(s, cmds.drop_last(), k),
        }
    }
}

/// Whether some command of `cmds` writes `k`.
pub open spec fn writes_key<W>(cmds: Seq<Command<W>>, k: Seq<u8>) -> bool {
    exists|i: int| 0 <= i < cmds.len() && (#[trigger] cmds[i] matches Command::Write(k2, _) && k2 == k)
}

/// The senders of the `NotifyRead(k)` commands among `cmds`, in command order.
pub open spec fn notifiers<W>(cmds: Seq<Command<W>>, k: Seq<u8>) -> Seq<W>
    decreases cmds.len(),
{
    if cmds.len() == 0 {
        Seq::empty()
    } else {
        match cmds.last() {
            Command::NotifyRead(k2, w) => if k2 == k {
                notifiers(cmds.drop_last(), k).push(w)
            } else {
                notifiers(cmds.drop_last(), k)
            },
            _ => notifiers(cmds.drop_last(), k),
        }
    }
}

/// A read answers with the value of the most recent accepted write of its key,
/// whatever commands came before it; so every value read is one that was written.
pub proof fn lemma_read_sees_latest_write<W>(s: StoreState<W>, cmds: Seq<Command<W>>, k: Seq<u8>)
    ensures
        lookup(run(s, cmds), k) == latest_write(s, cmds, k),
    decreases cmds.len(),
{
    if cmds.len() > 0 {
        lemma_read_sees_latest_write(s, cmds.drop_last(), k);
    }
}

proof fn lemma_queue_before_write<W>(s: StoreState<W>, cmds: Seq<Command<W>>, k: Seq<u8>)
    requires
        !s.contents.contains_key(k),
        !writes_key(cmds, k),
    ensures
        !run(s, cmds).contents.contains_key(k),
        waiters_of(run(s, cmds).pending, k) == waiters_of(s.pending, k) + notifiers(cmds, k),
    decreases cmds.len(),
{
    if cmds.len() > 0 {
        let init = cmds.drop_last();
        assert(!writes_key(init, k)) by {
            if writes_key(init, k) {
                let i = choose|i: int|
                    0 <= i < init.len() && (#[trigger] init[i] matches Command::Write(k2, _) && k2
                        == k);
                assert(cmds[i] == init[i]);
            }
        }
        lemma_queue_before_write(s, init, k);
        let last = cmds.last();
        assert(!(last matches Command::Write(k2, _) && k2 == k)) by {
            assert(cmds[cmds.len() - 1] == last);
        }
        let before = waiters_of(s.pending, k);
        match last {
            Command::NotifyRead(k2, w) => {
                if k2 == k {
                    assert(before + notifiers(init, k).push(w) =~= (before + notifiers(init, k)).push(
                        w,
                    ));
                }
            },
            _ => {},
        }
    }
}

/// Every `NotifyRead(k)` sent after the last state that held `k` and before the
/// first `Write(k, v)` is answered by that write, with exactly `v`, in the order
/// the waiters registered (after any that were already waiting), and none of
/// them is answered earlier.
pub proof fn lemma_notify_before_first_write<W>(
    s: StoreState<W>,
    cmds: Seq<Command<W>>,
    k: Seq<u8>,
    v: Seq<u8>,
)
    requires
        !s.contents.contains_key(k),
        !writes_key(cmds, k),
    ensures
        delivered(run(s, cmds), Command::Write(k, v)) == (waiters_of(s.pending, k) + notifiers(
            cmds,
            k,
        )).map_values(|w: W| (w, v)),
        forall|i: int|
            0 <= i < cmds.len() && (#[trigger] cmds[i] matches Command::NotifyRead(k2, _) && k2
                == k) ==> delivered(run(s, cmds.take(i)), cmds[i]).len() == 0,
{
    lemma_queue_before_write(s, cmds, k);
    assert forall|i: int|
        0 <= i < cmds.len() && (#[trigger] cmds[i] matches Command::NotifyRead(k2, _) && k2
            == k) implies delivered(run(s, cmds.take(i)), cmds[i]).len() == 0 by {
        let prefix = cmds.take(i);
        assert(!writes_key(prefix, k)) by {
            if writes_key(prefix, k) {
                let j = choose|j: int|
                    0 <= j < prefix.len() && (#[trigger] prefix[j] matches Command::Write(k2, _)
                        && k2 == k);
                assert(cmds[j] == prefix[j]);
            }
        }
        lemma_queue_before_write(s, prefix, k);
    }
}

} // verus!
