//! The wake-lock supervisor: a debounced acquire/release policy driven by
//! the activity signal.
//!
//! The supervisor is a state machine without side effects. Its driver waits
//! for whatever the last action asked for, reads the connection count and the
//! clock at the moment the event arrives, and hands all three to
//! [`WakeLockSupervisor::step`]. The answer is the next thing to do.

use crate::clock::{elapsed, remaining};
use vstd::prelude::*;

verus! {

/// Whether the external wake lock is held.
#[derive(Clone, Copy, Debug, PartialEq, Eq, Structural)]
pub enum LockState {
    Released,
    Held,
}

/// Where the supervisor stands between two events.
#[derive(Clone, Copy, Debug, PartialEq, Eq, Structural)]
pub enum SupervisorPhase {
    /// The lock is not held and no connection has asked for it.
    Released,
    /// The driver was asked to acquire the lock and has not reported back.
    Acquiring,
    /// The lock is held on behalf of open connections.
    Held,
    /// The lock is held, the last connection closed at `since`, and the
    /// release timer is running.
    Debouncing { since: u64 },
    /// The lock could not be acquired. Nothing more will be done.
    Failed,
}

/// What the driver saw happen.
#[derive(Clone, Copy, Debug, PartialEq, Eq, Structural)]
pub enum SupervisorEvent {
    /// The connection count crossed between zero and non-zero at least once.
    Signal,
    /// The release timer ran out.
    TimerElapsed,
    /// The lock was acquired as asked.
    LockAcquired,
    /// The lock could not be acquired.
    LockFailed,
}

/// An event together with the connection count and the clock, both read when
/// the event was seen.
#[derive(Clone, Copy, Debug, PartialEq, Eq, Structural)]
pub struct Observation {
    pub event: SupervisorEvent,
    pub active: u64,
    pub now: u64,
}

/// What the driver has to do next.
#[derive(Clone, Copy, Debug, PartialEq, Eq, Structural)]
pub enum SupervisorAction {
    /// Wait for the next activity signal.
    AwaitSignal,
    /// Acquire the lock, then report `LockAcquired` or `LockFailed`.
    AcquireLock,
    /// Wait for the next activity signal, but for no longer than `wait`;
    /// report whichever comes first.
    Debounce { wait: u64 },
    /// Release the lock, then wait for the next activity signal.
    ReleaseLock,
    /// Give up: the process cannot keep its promise to stay awake.
    Abort,
}

/// The supervisor's whole state. Every value is a possible state.
#[derive(Clone, Copy, Debug, PartialEq, Eq, Structural)]
pub struct WakeLockSupervisor {
    /// How long the lock outlives the last connection.
    pub timeout: u64,
    pub phase: SupervisorPhase,
}

impl WakeLockSupervisor {
    /// The same supervisor in another phase.
    pub open spec fn at(self, phase: SupervisorPhase) -> WakeLockSupervisor {
        WakeLockSupervisor { timeout: self.timeout, phase }
    }

    /// Whether the lock is held in this state.
    pub open spec fn spec_lock_state(&self) -> LockState {
        match self.phase {
            SupervisorPhase::Held | SupervisorPhase::Debouncing { .. } => LockState::Held,
            _ => LockState::Released,
        }
    }

    /// The step taken with the lock in hand: stay as long as a connection is
    /// open, else start the release timer at `now`.
    pub open spec fn settle(self, active: u64, now: u64) -> (WakeLockSupervisor, SupervisorAction) {
        if active > 0 {
            (self.at(SupervisorPhase::Held), SupervisorAction::AwaitSignal)
        } else {
            (
                self.at(SupervisorPhase::Debouncing { since: now }),
                SupervisorAction::Debounce { wait: self.timeout },
            )
        }
    }

    /// The transition table: the state after an observation, and the action
    /// that answers it.
    ///
    /// - `Released`: a non-zero count asks for the lock; otherwise nothing
    ///   changes.
    /// - `Acquiring`: `LockAcquired` puts the lock in hand (see `settle`),
    ///   `LockFailed` is fatal, anything else repeats the request.
    /// - `Held`: see `settle`.
    /// - `Debouncing`: a non-zero count ends the wait and the lock stays. With
    ///   the count at zero, a timer that ran the full timeout releases the
    ///   lock, a signal starts the wait afresh (the count has been away from
    ///   zero in between), and anything else waits for the rest.
    /// - `Failed`: nothing but `Abort`.
    pub open spec fn next(self, seen: Observation) -> (WakeLockSupervisor, SupervisorAction) {
        match self.phase {
            SupervisorPhase::Released => {
                if seen.active > 0 {
                    (self.at(SupervisorPhase::Acquiring), SupervisorAction::AcquireLock)
                } else {
                    (self, SupervisorAction::AwaitSignal)
                }
            },
            SupervisorPhase::Acquiring => {
                match seen.event {
                    SupervisorEvent::LockAcquired => self.settle(seen.active, seen.now),
                    SupervisorEvent::LockFailed => (
                        self.at(SupervisorPhase::Failed),
                        SupervisorAction::Abort,
                    ),
                    _ => (self, SupervisorAction::AcquireLock),
                }
            },
            SupervisorPhase::Held => self.settle(seen.active, seen.now),
            SupervisorPhase::Debouncing { since } => {
                if seen.active > 0 {
                    (self.at(SupervisorPhase::Held), SupervisorAction::AwaitSignal)
                } else if seen.event == SupervisorEvent::Signal {
                    self.settle(seen.active, seen.now)
                } else if seen.event == SupervisorEvent::TimerElapsed && elapsed(since, seen.now)
                    >= self.timeout {
                    (self.at(SupervisorPhase::Released), SupervisorAction::ReleaseLock)
                } else {
                    (self, SupervisorAction::Debounce { wait: remaining(self.timeout, since, seen.now) })
                }
            },
            SupervisorPhase::Failed => (self, SupervisorAction::Abort),
        }
    }

    /// A supervisor that holds no lock and releases it `timeout` after the
    /// last connection closed.
    pub fn new(timeout: u64) -> (supervisor: Self)
        ensures
            supervisor == (WakeLockSupervisor { timeout, phase: SupervisorPhase::Released }),
    {
        WakeLockSupervisor { timeout, phase: SupervisorPhase::Released }
    }

    /// Whether the lock is held.
    #[verifier::when_used_as_spec(spec_lock_state)]
    pub fn lock_state(&self) -> (lock: LockState)
        ensures
            lock == self.spec_lock_state(),
    {
        match self.phase {
            SupervisorPhase::Held => LockState::Held,
            SupervisorPhase::Debouncing { since: _ } => LockState::Held,
            _ => LockState::Released,
        }
    }

    /// Takes one observation and answers with the next action, as the
    /// transition table `next` says.
    pub fn step(&mut self, seen: Observation) -> (action: SupervisorAction)
        ensures
            (*final(self), action) == old(self).next(seen),
    {
        match self.phase {
            SupervisorPhase::Released => {
                if seen.active > 0 {
                    self.phase = SupervisorPhase::Acquiring;
                    SupervisorAction::AcquireLock
                } else {
                    SupervisorAction::AwaitSignal
                }
            },
            SupervisorPhase::Acquiring => {
                match seen.event {
                    SupervisorEvent::LockAcquired => self.hold(seen.active, seen.now),
                    SupervisorEvent::LockFailed => {
                        self.phase = SupervisorPhase::Failed;
                        SupervisorAction::Abort
                    },
                    _ => SupervisorAction::AcquireLock,
                }
            },
            SupervisorPhase::Held => self.hold(seen.active, seen.now),
            SupervisorPhase::Debouncing { since } => {
                if seen.active > 0 || seen.event == SupervisorEvent::Signal {
                    self.hold(seen.active, seen.now)
                } else {
                    let expired = elapsed(since, seen.now) >= self.timeout;
                    if expired && seen.event == SupervisorEvent::TimerElapsed {
                        self.phase = SupervisorPhase::Released;
                        SupervisorAction::ReleaseLock
                    } else {
                        SupervisorAction::Debounce { wait: remaining(self.timeout, since, seen.now) }
                    }
                }
            },
            SupervisorPhase::Failed => SupervisorAction::Abort,
        }
    }

    /// Keeps the lock: for the open connections, or for the length of the
    /// timeout from `now` on.
    fn hold(&mut self, active: u64, now: u64) -> (action: SupervisorAction)
        ensures
            (*final(self), action) == old(self).settle(active, now),
    {
        if active > 0 {
            self.phase = SupervisorPhase::Held;
            SupervisorAction::AwaitSignal
        } else {
            self.phase = SupervisorPhase::Debouncing { since: now };
            SupervisorAction::Debounce { wait: self.timeout }
        }
    }
}

/// The last connection closes: a signal seen at `at` with the count at zero.
pub open spec fn closing(at: u64) -> Observation {
    Observation { event: SupervisorEvent::Signal, active: 0, now: at }
}

impl WakeLockSupervisor {
    /// The state after a run of observations, taken in order.
    pub open spec fn run(self, trace: Seq<Observation>) -> WakeLockSupervisor
        decreases trace.len(),
    {
        if trace.len() == 0 {
            self
        } else {
            self.run(trace.drop_last()).next(trace.last()).0
        }
    }

    /// The action that answers observation `i` of a run.
    pub open spec fn answer(self, trace: Seq<Observation>, i: int) -> SupervisorAction {
        self.run(trace.take(i)).next(trace[i]).1
    }

    /// How many observations of a run are answered with `ReleaseLock`.
    pub open spec fn releases(self, trace: Seq<Observation>) -> nat
        decreases trace.len(),
    {
        if trace.len() == 0 {
            0
        } else {
            let earlier = self.releases(trace.drop_last());
            if self.answer(trace, trace.len() - 1) == SupervisorAction::ReleaseLock {
                earlier + 1
            } else {
                earlier
            }
        }
    }

    /// Among the observations `1..k` of a run that began with the close at
    /// `closed_at`, one has seen the full timeout pass.
    pub open spec fn due_before(self, closed_at: u64, trace: Seq<Observation>, k: int) -> bool {
        exists|i: int| 1 <= i < k && elapsed(closed_at, #[trigger] trace[i].now) >= self.timeout
    }
}

/// The lock changes hands with the state. An observation is answered with
/// `ReleaseLock` exactly when it takes the state from lock held to lock
/// released, so the lock is given back on every way out of holding it. The
/// state goes from released to held exactly when the driver reports the lock
/// acquired that it was asked for, and it waits for that report exactly when
/// the answer is `AcquireLock`. The timeout never changes.
pub proof fn lemma_lock_follows_state(s: WakeLockSupervisor, seen: Observation)
    ensures
        s.next(seen).1 == SupervisorAction::ReleaseLock <==> s.lock_state() == LockState::Held
            && s.next(seen).0.lock_state() == LockState::Released,
        s.lock_state() == LockState::Released && s.next(seen).0.lock_state() == LockState::Held
            <==> s.phase == SupervisorPhase::Acquiring && seen.event
            == SupervisorEvent::LockAcquired,
        s.next(seen).1 == SupervisorAction::AcquireLock <==> s.next(seen).0.phase
            == SupervisorPhase::Acquiring,
        s.next(seen).1 == SupervisorAction::Abort <==> s.next(seen).0.phase
            == SupervisorPhase::Failed,
        s.next(seen).0.timeout == s.timeout,
{
}

/// One more observation extends a run by one step.
proof fn lemma_run_prefix(s: WakeLockSupervisor, trace: Seq<Observation>, k: int)
    requires
        0 < k <= trace.len(),
    ensures
        s.run(trace.take(k)) == s.run(trace.take(k - 1)).next(trace[k - 1]).0,
{
    assert(trace.take(k).drop_last() =~= trace.take(k - 1));
}

/// State of a run that began with a close and has not left the window of the
/// timeout since.
proof fn lemma_quiet_spell(s: WakeLockSupervisor, closed_at: u64, trace: Seq<Observation>, k: int)
    requires
        s.lock_state() == LockState::Held,
        trace.len() > 0,
        trace[0] == closing(closed_at),
        forall|i: int|
            0 <= i < trace.len() ==> closed_at <= (#[trigger] trace[i]).now < closed_at + s.timeout,
        0 <= k <= trace.len(),
    ensures
        s.run(trace.take(k)).timeout == s.timeout,
        s.run(trace.take(k)).lock_state() == LockState::Held,
        k > 0 ==> match s.run(trace.take(k)).phase {
            SupervisorPhase::Debouncing { since } => closed_at <= since,
            _ => true,
        },
        k > 0 && trace[k - 1].active > 0 ==> s.run(trace.take(k)).phase == SupervisorPhase::Held,
        k < trace.len() ==> s.answer(trace, k) != SupervisorAction::ReleaseLock,
    decreases k,
{
    if k > 0 {
        lemma_quiet_spell(s, closed_at, trace, k - 1);
        lemma_run_prefix(s, trace, k);
        assert(closed_at <= trace[k - 1].now < closed_at + s.timeout);
    }
    if k < trace.len() {
        assert(closed_at <= trace[k].now < closed_at + s.timeout);
    }
}

/// No flicker. The lock is held and the last connection closes. Whatever is
/// seen from then on, as long as less than the timeout has passed since the
/// close, leaves the lock held: no answer is `ReleaseLock`, and the state
/// never shows the lock released in between. An observation that finds a
/// connection open again ends the wait for the release.
pub proof fn lemma_no_flicker(s: WakeLockSupervisor, closed_at: u64, trace: Seq<Observation>)
    requires
        s.lock_state() == LockState::Held,
        trace.len() > 0,
        trace[0] == closing(closed_at),
        forall|i: int|
            0 <= i < trace.len() ==> closed_at <= (#[trigger] trace[i]).now < closed_at + s.timeout,
    ensures
        forall|k: int|
            0 <= k <= trace.len() ==> (#[trigger] s.run(trace.take(k))).lock_state()
                == LockState::Held,
        forall|i: int|
            0 <= i < trace.len() ==> #[trigger] s.answer(trace, i) != SupervisorAction::ReleaseLock,
        forall|k: int|
            0 < k <= trace.len() && trace[k - 1].active > 0 ==> (#[trigger] s.run(
                trace.take(k),
            )).phase == SupervisorPhase::Held,
{
    assert forall|k: int| 0 <= k <= trace.len() implies (#[trigger] s.run(
        trace.take(k),
    )).lock_state() == LockState::Held && (k > 0 && trace[k - 1].active > 0 ==> s.run(
        trace.take(k),
    ).phase == SupervisorPhase::Held) by {
        lemma_quiet_spell(s, closed_at, trace, k);
    }
    assert forall|i: int| 0 <= i < trace.len() implies #[trigger] s.answer(trace, i)
        != SupervisorAction::ReleaseLock by {
        lemma_quiet_spell(s, closed_at, trace, i);
    }
}

/// State of a run in which the count stays at zero after the close, so that
/// only the release timer reports.
proof fn lemma_idle_spell(s: WakeLockSupervisor, closed_at: u64, trace: Seq<Observation>, k: int)
    requires
        s.lock_state() == LockState::Held,
        trace.len() > 0,
        trace[0] == closing(closed_at),
        forall|i: int|
            1 <= i < trace.len() ==> (#[trigger] trace[i]).event == SupervisorEvent::TimerElapsed
                && trace[i].active == 0,
        0 < k <= trace.len(),
    ensures
        s.run(trace.take(k)) == s.at(
            if s.due_before(closed_at, trace, k) {
                SupervisorPhase::Released
            } else {
                SupervisorPhase::Debouncing { since: closed_at }
            },
        ),
        s.releases(trace.take(k)) == if s.due_before(closed_at, trace, k) {
            1nat
        } else {
            0nat
        },
        s.answer(trace, k - 1) == if k == 1 {
            SupervisorAction::Debounce { wait: s.timeout }
        } else if s.due_before(closed_at, trace, k - 1) {
            SupervisorAction::AwaitSignal
        } else if elapsed(closed_at, trace[k - 1].now) >= s.timeout {
            SupervisorAction::ReleaseLock
        } else {
            SupervisorAction::Debounce { wait: remaining(s.timeout, closed_at, trace[k - 1].now) }
        },
    decreases k,
{
    lemma_run_prefix(s, trace, k);
    assert(trace.take(k).drop_last() =~= trace.take(k - 1));
    assert(trace.take(k).take(k - 1) =~= trace.take(k - 1));
    assert(s.answer(trace.take(k), k - 1) == s.answer(trace, k - 1));
    if k == 1 {
        assert(trace.take(0) =~= Seq::<Observation>::empty());
        assert(s.releases(trace.take(0)) == 0);
    } else {
        lemma_idle_spell(s, closed_at, trace, k - 1);
        assert(trace[k - 1].event == SupervisorEvent::TimerElapsed && trace[k - 1].active == 0);
        if s.due_before(closed_at, trace, k - 1) {
            let i = choose|i: int|
                1 <= i < k - 1 && elapsed(closed_at, #[trigger] trace[i].now) >= s.timeout;
            assert(1 <= i < k && elapsed(closed_at, trace[i].now) >= s.timeout);
        } else if elapsed(closed_at, trace[k - 1].now) >= s.timeout {
            assert(1 <= k - 1 < k && elapsed(closed_at, trace[k - 1].now) >= s.timeout);
        } else if s.due_before(closed_at, trace, k) {
            let i = choose|i: int|
                1 <= i < k && elapsed(closed_at, #[trigger] trace[i].now) >= s.timeout;
            assert(1 <= i < k - 1);
        }
    }
}

/// Eventual release. The lock is held and the last connection closes at
/// `closed_at`. If the count then stays at zero, so that no further signal is
/// raised and only the release timer reports, the lock is released exactly
/// once: in answer to the first timer report that sees the full timeout
/// passed since the close, no earlier, and never again. Until then each
/// answer asks to wait for what is left of the timeout.
pub proof fn lemma_release_once(s: WakeLockSupervisor, closed_at: u64, trace: Seq<Observation>)
    requires
        s.lock_state() == LockState::Held,
        trace.len() > 0,
        trace[0] == closing(closed_at),
        forall|i: int|
            1 <= i < trace.len() ==> (#[trigger] trace[i]).event == SupervisorEvent::TimerElapsed
                && trace[i].active == 0,
    ensures
        s.releases(trace) == if s.due_before(closed_at, trace, trace.len() as int) {
            1nat
        } else {
            0nat
        },
        forall|k: int|
            0 < k <= trace.len() ==> (#[trigger] s.run(trace.take(k))).lock_state() == if s.due_before(
                closed_at,
                trace,
                k,
            ) {
                LockState::Released
            } else {
                LockState::Held
            },
        forall|i: int|
            0 <= i < trace.len() ==> (#[trigger] s.answer(trace, i) == SupervisorAction::ReleaseLock
                <==> i > 0 && elapsed(closed_at, trace[i].now) >= s.timeout && !s.due_before(
                closed_at,
                trace,
                i,
            )),
        s.answer(trace, 0) == (SupervisorAction::Debounce { wait: s.timeout }),
        forall|i: int|
            0 < i < trace.len() && !s.due_before(closed_at, trace, i + 1) ==> #[trigger] s.answer(
                trace,
                i,
            ) == (SupervisorAction::Debounce {
                wait: remaining(s.timeout, closed_at, trace[i].now),
            }),
{
    lemma_idle_spell(s, closed_at, trace, trace.len() as int);
    assert(trace.take(trace.len() as int) =~= trace);
    assert forall|k: int| 0 < k <= trace.len() implies (#[trigger] s.run(
        trace.take(k),
    )).lock_state() == if s.due_before(closed_at, trace, k) {
        LockState::Released
    } else {
        LockState::Held
    } by {
        lemma_idle_spell(s, closed_at, trace, k);
    }
    assert forall|i: int| 0 <= i < trace.len() implies (#[trigger] s.answer(trace, i)
        == SupervisorAction::ReleaseLock <==> i > 0 && elapsed(closed_at, trace[i].now)
        >= s.timeout && !s.due_before(closed_at, trace, i)) by {
        lemma_idle_spell(s, closed_at, trace, i + 1);
    }
    lemma_idle_spell(s, closed_at, trace, 1);
    assert forall|i: int|
        0 < i < trace.len() && !s.due_before(closed_at, trace, i + 1) implies #[trigger] s.answer(
        trace,
        i,
    ) == (SupervisorAction::Debounce { wait: remaining(s.timeout, closed_at, trace[i].now) }) by {
        lemma_idle_spell(s, closed_at, trace, i + 1);
        if s.due_before(closed_at, trace, i) {
            let j = choose|j: int|
                1 <= j < i && elapsed(closed_at, #[trigger] trace[j].now) >= s.timeout;
            assert(1 <= j < i + 1);
        }
        if elapsed(closed_at, trace[i].now) >= s.timeout {
            assert(1 <= i < i + 1);
        }
    }
}

} // verus!
