//! Counting the connections that are currently open.

use vstd::prelude::*;

verus! {

/// One call on an [`ActivityTracker`].
pub enum Call {
    Enter,
    Leave,
}

/// The count that a call leaves behind.
pub open spec fn count_after(count: int, call: Call) -> int {
    match call {
        Call::Enter => count + 1,
        Call::Leave => count - 1,
    }
}

/// Whether a call made at `count` raises the activity signal: an enter that
/// finds no connection open, or a leave that closes the last one.
pub open spec fn raises_signal(count: int, call: Call) -> bool {
    match call {
        Call::Enter => count == 0,
        Call::Leave => count == 1,
    }
}

/// The count moved across the boundary between idle and busy.
pub open spec fn crosses_boundary(before: int, after: int) -> bool {
    (before == 0 && after == 1) || (before == 1 && after == 0)
}

/// The number of open connections, shared by the connection tasks and the
/// supervisor.
pub struct ActivityTracker {
    count: u64,
}

impl View for ActivityTracker {
    type V = int;

    closed spec fn view(&self) -> int {
        self.count as int
    }
}

impl ActivityTracker {
    /// A tracker with no connection open.
    pub fn new() -> (tracker: Self)
        ensures
            tracker@ == 0,
    {
        ActivityTracker { count: 0 }
    }

    /// The number of connections that are open now.
    pub fn active(&self) -> (count: u64)
        ensures
            count == self@,
    {
        self.count
    }

    /// Counts a connection in. The result is the activity signal: `true`
    /// exactly when no connection was open before.
    pub fn enter(&mut self) -> (signal: bool)
        requires
            old(self)@ < u64::MAX,
        ensures
            final(self)@ == count_after(old(self)@, Call::Enter),
            signal == raises_signal(old(self)@, Call::Enter),
    {
        let first = self.count == 0;
        self.count = self.count + 1;
        first
    }

    /// Counts a connection out. The result is the activity signal: `true`
    /// exactly when no connection is open afterwards. Every call answers one
    /// earlier `enter`, so there is a connection to count out.
    pub fn leave(&mut self) -> (signal: bool)
        requires
            old(self)@ > 0,
        ensures
            final(self)@ == count_after(old(self)@, Call::Leave),
            signal == raises_signal(old(self)@, Call::Leave),
    {
        self.count = self.count - 1;
        self.count == 0
    }
}

/// How many calls of a sequence are enters.
pub open spec fn enters(calls: Seq<Call>) -> nat
    decreases calls.len(),
{
    if calls.len() == 0 {
        0
    } else if calls.last() is Enter {
        enters(calls.drop_last()) + 1
    } else {
        enters(calls.drop_last())
    }
}

/// How many calls of a sequence are leaves.
pub open spec fn leaves(calls: Seq<Call>) -> nat
    decreases calls.len(),
{
    if calls.len() == 0 {
        0
    } else if calls.last() is Leave {
        leaves(calls.drop_last()) + 1
    } else {
        leaves(calls.drop_last())
    }
}

/// The count after a sequence of calls that began at `start`.
pub open spec fn replay(start: int, calls: Seq<Call>) -> int
    decreases calls.len(),
{
    if calls.len() == 0 {
        start
    } else {
        count_after(replay(start, calls.drop_last()), calls.last())
    }
}

/// Every leave answers an earlier enter, or counts out one of the `start`
/// connections that were open at the beginning: at no point have more
/// connections left than were there.
pub open spec fn paired(start: int, calls: Seq<Call>) -> bool {
    forall|k: int|
        0 <= k <= calls.len() ==> leaves(#[trigger] calls.take(k)) <= start + enters(calls.take(k))
}

/// The count is the number of connections that entered and have not left.
proof fn lemma_replay_balance(start: int, calls: Seq<Call>)
    ensures
        replay(start, calls) == start + enters(calls) - leaves(calls),
    decreases calls.len(),
{
    if calls.len() > 0 {
        lemma_replay_balance(start, calls.drop_last());
    }
}

/// The invariant of the count. Take any sequence of calls in which every
/// leave answers an earlier enter. Before each call the count is the number
/// of connections that entered and have not left, and so is never negative.
/// A leave always finds a connection to count out. And a call raises the
/// signal exactly when it moves the count from zero to one or from one to
/// zero.
pub proof fn lemma_count_invariant(start: int, calls: Seq<Call>, k: int)
    requires
        0 <= start,
        paired(start, calls),
        0 <= k <= calls.len(),
    ensures
        replay(start, calls.take(k)) == start + enters(calls.take(k)) - leaves(calls.take(k)),
        replay(start, calls.take(k)) >= 0,
        k < calls.len() ==> {
            let before = replay(start, calls.take(k));
            let after = replay(start, calls.take(k + 1));
            &&& after == count_after(before, calls[k])
            &&& calls[k] is Leave ==> before > 0
            &&& raises_signal(before, calls[k]) <==> crosses_boundary(before, after)
        },
{
    lemma_replay_balance(start, calls.take(k));
    assert(leaves(calls.take(k)) <= start + enters(calls.take(k)));
    if k < calls.len() {
        lemma_replay_balance(start, calls.take(k + 1));
        assert(leaves(calls.take(k + 1)) <= start + enters(calls.take(k + 1)));
        assert(calls.take(k + 1).drop_last() =~= calls.take(k));
    }
}

} // verus!
