//! The reachability handshake that precedes forwarding to a target which may
//! be asleep.
//!
//! One handshake belongs to one inbound connection. It asks its driver to
//! probe the target, to send the wake signal, and in the end either to connect
//! or to drop the connection. The driver performs each action and reports
//! what came of it, with the clock read at that moment.

use crate::clock::elapsed;
use vstd::prelude::*;

verus! {

/// How long a single probe may wait for an answer, in milliseconds.
pub const PROBE_TIMEOUT: u64 = 1000;

/// How long the target is probed before it is taken to be asleep, in
/// milliseconds. A probe that fails later than this ends the probing.
pub const PROBE_WINDOW: u64 = 1000;

/// Why a handshake gave the connection up.
#[derive(Clone, Copy, Debug, PartialEq, Eq, Structural)]
pub enum HandshakeError {
    /// The wake signal could not be sent.
    WakeSignalFailed,
    /// The target did not answer within the wake timeout.
    WakeTimeout,
}

/// The state of one handshake.
#[derive(Clone, Copy, Debug, PartialEq, Eq, Structural)]
pub enum HandshakeState {
    /// Checking whether the target is up already; the check began at `since`.
    Probing { since: u64 },
    /// The target did not answer, and the driver was asked to send the wake
    /// signal.
    WakeSent,
    /// The wake signal is out; polling for the target since `since`.
    Waiting { since: u64 },
    /// The target answered.
    Ready,
    /// The connection is given up.
    Failed { error: HandshakeError },
}

/// What the driver saw happen.
#[derive(Clone, Copy, Debug, PartialEq, Eq, Structural)]
pub enum HandshakeEvent {
    /// A probe came back.
    Probed { reachable: bool },
    /// The wake signal was sent.
    WakeSignalSent,
    /// The wake signal could not be sent.
    WakeSignalFailed,
}

/// An event together with the clock read when it was seen.
#[derive(Clone, Copy, Debug, PartialEq, Eq, Structural)]
pub struct Report {
    pub event: HandshakeEvent,
    pub now: u64,
}

/// What the driver has to do next.
#[derive(Clone, Copy, Debug, PartialEq, Eq, Structural)]
pub enum HandshakeAction {
    /// Probe the target once, waiting no longer than `timeout` for the
    /// answer, and report `Probed`.
    Probe { timeout: u64 },
    /// Send the wake signal and report `WakeSignalSent` or
    /// `WakeSignalFailed`.
    SendWake,
    /// Connect to the target and start forwarding.
    Connect,
    /// Drop the connection.
    Fail { error: HandshakeError },
}

/// One handshake. Every value is a possible state.
#[derive(Clone, Copy, Debug, PartialEq, Eq, Structural)]
pub struct Handshake {
    /// How long the target may take to answer after the wake signal.
    pub wake_timeout: u64,
    pub state: HandshakeState,
}

impl Handshake {
    /// The same handshake in another state.
    pub open spec fn at(self, state: HandshakeState) -> Handshake {
        Handshake { wake_timeout: self.wake_timeout, state }
    }

    /// What this state waits for the driver to do.
    pub open spec fn spec_pending(&self) -> HandshakeAction {
        match self.state {
            HandshakeState::Probing { .. } | HandshakeState::Waiting { .. } => HandshakeAction::Probe {
                timeout: PROBE_TIMEOUT,
            },
            HandshakeState::WakeSent => HandshakeAction::SendWake,
            HandshakeState::Ready => HandshakeAction::Connect,
            HandshakeState::Failed { error } => HandshakeAction::Fail { error },
        }
    }

    /// The transition table: the state after a report.
    ///
    /// - `Probing`: an answer makes the target `Ready`. A probe without
    ///   answer is repeated as long as no more than the probe window has
    ///   passed, the end of the window included; after that the wake signal
    ///   is due. Reports on a wake signal mean nothing yet.
    /// - `WakeSent`: a failed send gives the connection up, an answer from
    ///   the target makes it `Ready`, and anything else starts the wait at
    ///   the time of the report. No report leaves the state as it is, so the
    ///   signal is asked for once.
    /// - `Waiting`: an answer makes the target `Ready`. A probe without
    ///   answer is repeated as long as no more than the wake timeout has
    ///   passed, the timeout itself included; after that the connection is
    ///   given up. Reports on the wake signal mean nothing any more.
    /// - `Ready` and `Failed` are final.
    pub open spec fn next(self, report: Report) -> Handshake {
        match self.state {
            HandshakeState::Probing { since } => match report.event {
                HandshakeEvent::Probed { reachable } => if reachable {
                    self.at(HandshakeState::Ready)
                } else if elapsed(since, report.now) > PROBE_WINDOW {
                    self.at(HandshakeState::WakeSent)
                } else {
                    self
                },
                _ => self,
            },
            HandshakeState::WakeSent => match report.event {
                HandshakeEvent::WakeSignalFailed => self.at(
                    HandshakeState::Failed { error: HandshakeError::WakeSignalFailed },
                ),
                HandshakeEvent::Probed { reachable: true } => self.at(HandshakeState::Ready),
                _ => self.at(HandshakeState::Waiting { since: report.now }),
            },
            HandshakeState::Waiting { since } => match report.event {
                HandshakeEvent::Probed { reachable } => if reachable {
                    self.at(HandshakeState::Ready)
                } else if elapsed(since, report.now) > self.wake_timeout {
                    self.at(HandshakeState::Failed { error: HandshakeError::WakeTimeout })
                } else {
                    self
                },
                _ => self,
            },
            HandshakeState::Ready => self,
            HandshakeState::Failed { .. } => self,
        }
    }

    /// The handshake for a connection that arrived at `now`, with the time
    /// that the target may take to wake up. It begins by probing.
    pub fn start(wake_timeout: u64, now: u64) -> (handshake: Self)
        ensures
            handshake == (Handshake { wake_timeout, state: HandshakeState::Probing { since: now } }),
    {
        Handshake { wake_timeout, state: HandshakeState::Probing { since: now } }
    }

    /// What the driver has to do in this state.
    #[verifier::when_used_as_spec(spec_pending)]
    pub fn pending(&self) -> (action: HandshakeAction)
        ensures
            action == self.spec_pending(),
    {
        match self.state {
            HandshakeState::Probing { since: _ } => HandshakeAction::Probe { timeout: PROBE_TIMEOUT },
            HandshakeState::WakeSent => HandshakeAction::SendWake,
            HandshakeState::Waiting { since: _ } => HandshakeAction::Probe { timeout: PROBE_TIMEOUT },
            HandshakeState::Ready => HandshakeAction::Connect,
            HandshakeState::Failed { error } => HandshakeAction::Fail { error },
        }
    }

    /// Takes one report, moves as the transition table `next` says, and
    /// answers with what the new state waits for.
    pub fn step(&mut self, report: Report) -> (action: HandshakeAction)
        ensures
            *final(self) == old(self).next(report),
            action == final(self).pending(),
    {
        match self.state {
            HandshakeState::Probing { since } => {
                if let HandshakeEvent::Probed { reachable } = report.event {
                    if reachable {
                        self.state = HandshakeState::Ready;
                    } else if elapsed(since, report.now) > PROBE_WINDOW {
                        self.state = HandshakeState::WakeSent;
                    }
                }
            },
            HandshakeState::WakeSent => {
                self.state = match report.event {
                    HandshakeEvent::WakeSignalFailed => HandshakeState::Failed {
                        error: HandshakeError::WakeSignalFailed,
                    },
                    HandshakeEvent::Probed { reachable: true } => HandshakeState::Ready,
                    _ => HandshakeState::Waiting { since: report.now },
                };
            },
            HandshakeState::Waiting { since } => {
                if let HandshakeEvent::Probed { reachable } = report.event {
                    if reachable {
                        self.state = HandshakeState::Ready;
                    } else if elapsed(since, report.now) > self.wake_timeout {
                        self.state = HandshakeState::Failed { error: HandshakeError::WakeTimeout };
                    }
                }
            },
            HandshakeState::Ready => {},
            HandshakeState::Failed { error: _ } => {},
        }
        self.pending()
    }

    /// The state after a run of reports, taken in order.
    pub open spec fn run(self, trace: Seq<Report>) -> Handshake
        decreases trace.len(),
    {
        if trace.len() == 0 {
            self
        } else {
            self.run(trace.drop_last()).next(trace.last())
        }
    }

    /// The action that answers report `i` of a run.
    pub open spec fn answer(self, trace: Seq<Report>, i: int) -> HandshakeAction {
        self.run(trace.take(i + 1)).pending()
    }

    /// How many reports of a run are answered with `SendWake`.
    pub open spec fn wakes(self, trace: Seq<Report>) -> nat
        decreases trace.len(),
    {
        if trace.len() == 0 {
            0
        } else {
            let earlier = self.wakes(trace.drop_last());
            if self.run(trace).pending() == HandshakeAction::SendWake {
                earlier + 1
            } else {
                earlier
            }
        }
    }
}

/// The target answered: a probe that came back with `reachable` set.
pub open spec fn answered(report: Report) -> bool {
    report.event == (HandshakeEvent::Probed { reachable: true })
}

/// A probe that found nothing, seen when more than `timeout` had passed
/// since `since`. One seen exactly at the timeout is not overdue yet.
pub open spec fn overdue(report: Report, since: u64, timeout: u64) -> bool {
    report.event == (HandshakeEvent::Probed { reachable: false }) && elapsed(since, report.now)
        > timeout
}

/// One of the first `k` reports of a run is overdue.
pub open spec fn overdue_before(trace: Seq<Report>, since: u64, timeout: u64, k: int) -> bool {
    exists|i: int| 0 <= i < k && overdue(#[trigger] trace[i], since, timeout)
}

/// Counts the wake signals of a run that began by probing: none while still
/// probing, one from then on.
proof fn lemma_wakes(h: Handshake, trace: Seq<Report>)
    requires
        h.state is Probing,
    ensures
        h.run(trace).wake_timeout == h.wake_timeout,
        h.run(trace).state is Probing ==> h.wakes(trace) == 0 && h.run(trace).state == h.state,
        h.run(trace).state is WakeSent ==> h.wakes(trace) == 1,
        h.wakes(trace) <= 1,
        (forall|i: int| 0 <= i < trace.len() ==> !answered(#[trigger] trace[i])) ==> (h.wakes(trace)
            == 0 <==> h.run(trace).state is Probing),
    decreases trace.len(),
{
    if trace.len() > 0 {
        let before = trace.drop_last();
        lemma_wakes(h, before);
        assert forall|i: int| 0 <= i < before.len() implies before[i] == trace[i] by {}
        if forall|i: int| 0 <= i < trace.len() ==> !answered(#[trigger] trace[i]) {
            assert forall|i: int| 0 <= i < before.len() implies !answered(#[trigger] before[i]) by {
                assert(!answered(trace[i]));
            }
            assert(!answered(trace[trace.len() - 1]));
        }
    }
}

/// A run stays where it is once the target is `Ready`, and asks for no wake
/// signal from there.
proof fn lemma_ready_is_final(h: Handshake, trace: Seq<Report>, k: int)
    requires
        0 <= k <= trace.len(),
        h.run(trace.take(k)).state == HandshakeState::Ready,
    ensures
        h.run(trace).state == HandshakeState::Ready,
        h.wakes(trace) == h.wakes(trace.take(k)),
    decreases trace.len() - k,
{
    if k == trace.len() {
        assert(trace.take(k) =~= trace);
    } else {
        assert(trace.take(k + 1).drop_last() =~= trace.take(k));
        lemma_ready_is_final(h, trace, k + 1);
    }
}

/// A handshake that finds no target goes on probing until a probe comes back
/// later than the probe window.
proof fn lemma_probing_until_overdue(h: Handshake, since: u64, trace: Seq<Report>, k: int)
    requires
        h.state == (HandshakeState::Probing { since }),
        forall|i: int| 0 <= i < trace.len() ==> !answered(#[trigger] trace[i]),
        0 <= k <= trace.len(),
    ensures
        h.run(trace.take(k)).state is Probing <==> !overdue_before(trace, since, PROBE_WINDOW, k),
    decreases k,
{
    lemma_wakes(h, trace.take(k));
    if k == 0 {
        assert(trace.take(0) =~= Seq::<Report>::empty());
    } else {
        lemma_probing_until_overdue(h, since, trace, k - 1);
        lemma_wakes(h, trace.take(k - 1));
        assert(trace.take(k).drop_last() =~= trace.take(k - 1));
        assert(!answered(trace[k - 1]));
        if overdue_before(trace, since, PROBE_WINDOW, k - 1) {
            let i = choose|i: int| 0 <= i < k - 1 && overdue(#[trigger] trace[i], since, PROBE_WINDOW);
            assert(0 <= i < k && overdue(trace[i], since, PROBE_WINDOW));
        } else if overdue(trace[k - 1], since, PROBE_WINDOW) {
            assert(0 <= k - 1 < k && overdue(trace[k - 1], since, PROBE_WINDOW));
        } else if overdue_before(trace, since, PROBE_WINDOW, k) {
            let i = choose|i: int| 0 <= i < k && overdue(#[trigger] trace[i], since, PROBE_WINDOW);
            assert(0 <= i < k - 1);
        }
    }
}

/// Single wake per handshake. Whatever is reported to a handshake that
/// began by probing at `since`, and however long the polling goes on, it
/// asks for the wake signal at most once. If no probe ever finds the target,
/// it asks exactly once: in answer to the first probe that comes back later
/// than the probe window, and not before.
pub proof fn lemma_single_wake(h: Handshake, since: u64, trace: Seq<Report>)
    requires
        h.state == (HandshakeState::Probing { since }),
    ensures
        h.wakes(trace) <= 1,
        (forall|i: int| 0 <= i < trace.len() ==> !answered(#[trigger] trace[i])) ==> h.wakes(trace)
            == if overdue_before(trace, since, PROBE_WINDOW, trace.len() as int) {
            1nat
        } else {
            0nat
        },
        (forall|i: int| 0 <= i < trace.len() ==> !answered(#[trigger] trace[i])) ==> forall|k: int|
            0 <= k < trace.len() ==> (#[trigger] h.answer(trace, k) == HandshakeAction::SendWake
                <==> overdue(trace[k], since, PROBE_WINDOW) && !overdue_before(
                trace,
                since,
                PROBE_WINDOW,
                k,
            )),
{
    lemma_wakes(h, trace);
    if forall|i: int| 0 <= i < trace.len() ==> !answered(#[trigger] trace[i]) {
        lemma_probing_until_overdue(h, since, trace, trace.len() as int);
        assert(trace.take(trace.len() as int) =~= trace);
        assert forall|k: int| 0 <= k < trace.len() implies (#[trigger] h.answer(trace, k)
            == HandshakeAction::SendWake <==> overdue(trace[k], since, PROBE_WINDOW)
            && !overdue_before(trace, since, PROBE_WINDOW, k)) by {
            lemma_probing_until_overdue(h, since, trace, k);
            lemma_wakes(h, trace.take(k));
            assert(trace.take(k + 1).drop_last() =~= trace.take(k));
            assert(!answered(trace[k]));
        }
    }
}

/// Skip the wake on a target that is up. If the target answers report `k`
/// while the handshake is still probing, the answer to that report is
/// `Connect`, the handshake is `Ready` from then on, and the whole run asks
/// for no wake signal.
pub proof fn lemma_skip_wake(h: Handshake, trace: Seq<Report>, k: int)
    requires
        h.state is Probing,
        0 <= k < trace.len(),
        h.run(trace.take(k)).state is Probing,
        answered(trace[k]),
    ensures
        h.answer(trace, k) == HandshakeAction::Connect,
        h.run(trace).state == HandshakeState::Ready,
        h.wakes(trace) == 0,
{
    lemma_wakes(h, trace.take(k));
    assert(trace.take(k + 1).drop_last() =~= trace.take(k));
    lemma_ready_is_final(h, trace, k + 1);
}

/// The wake deadline. A handshake waits for its target since `since`, and no
/// probe finds the target. Then it goes on probing, also at the very moment
/// the wake timeout runs out, until a probe comes back later than the wake
/// timeout; from that report on the connection has failed with
/// `WakeTimeout`. It never says to connect.
pub proof fn lemma_wake_deadline(h: Handshake, since: u64, trace: Seq<Report>, k: int)
    requires
        h.state == (HandshakeState::Waiting { since }),
        forall|i: int| 0 <= i < trace.len() ==> !answered(#[trigger] trace[i]),
        0 <= k <= trace.len(),
    ensures
        h.run(trace.take(k)) == h.at(
            if overdue_before(trace, since, h.wake_timeout, k) {
                HandshakeState::Failed { error: HandshakeError::WakeTimeout }
            } else {
                HandshakeState::Waiting { since }
            },
        ),
        k < trace.len() ==> h.answer(trace, k) == if overdue_before(trace, since, h.wake_timeout, k + 1) {
            HandshakeAction::Fail { error: HandshakeError::WakeTimeout }
        } else {
            HandshakeAction::Probe { timeout: PROBE_TIMEOUT }
        },
{
    if k < trace.len() {
        // The answer to report `k` is read off the state after it.
        lemma_wake_deadline_at(h, since, trace, k + 1);
    }
    lemma_wake_deadline_at(h, since, trace, k);
}

/// Waking up in time. A handshake waits for its target since `since`. If
/// every probe before report `k` failed no later than the wake timeout, the
/// probe behind report `k` was asked for, and when it finds the target the
/// answer is `Connect`, however late that report comes.
pub proof fn lemma_wake_in_time(h: Handshake, since: u64, trace: Seq<Report>, k: int)
    requires
        h.state == (HandshakeState::Waiting { since }),
        0 <= k < trace.len(),
        forall|i: int|
            0 <= i < k ==> !answered(#[trigger] trace[i]) && !overdue(
                trace[i],
                since,
                h.wake_timeout,
            ),
        answered(trace[k]),
    ensures
        h.run(trace.take(k)) == h,
        k > 0 ==> h.answer(trace, k - 1) == (HandshakeAction::Probe { timeout: PROBE_TIMEOUT }),
        h.answer(trace, k) == HandshakeAction::Connect,
        h.run(trace).state == HandshakeState::Ready,
{
    let before = trace.take(k);
    assert forall|i: int| 0 <= i < before.len() implies !answered(#[trigger] before[i]) by {
        assert(!answered(trace[i]));
    }
    lemma_wake_deadline_at(h, since, before, k);
    assert(before.take(k) =~= before);
    if overdue_before(before, since, h.wake_timeout, k) {
        let i = choose|i: int| 0 <= i < k && overdue(#[trigger] before[i], since, h.wake_timeout);
        assert(!overdue(trace[i], since, h.wake_timeout));
    }
    assert(trace.take(k + 1).drop_last() =~= before);
    lemma_ready_is_final(h, trace, k + 1);
}

/// The state of a run that waits for a target which no probe finds.
proof fn lemma_wake_deadline_at(h: Handshake, since: u64, trace: Seq<Report>, k: int)
    requires
        h.state == (HandshakeState::Waiting { since }),
        forall|i: int| 0 <= i < trace.len() ==> !answered(#[trigger] trace[i]),
        0 <= k <= trace.len(),
    ensures
        h.run(trace.take(k)) == h.at(
            if overdue_before(trace, since, h.wake_timeout, k) {
                HandshakeState::Failed { error: HandshakeError::WakeTimeout }
            } else {
                HandshakeState::Waiting { since }
            },
        ),
    decreases k,
{
    if k == 0 {
        assert(trace.take(0) =~= Seq::<Report>::empty());
    } else {
        lemma_wake_deadline_at(h, since, trace, k - 1);
        assert(trace.take(k).drop_last() =~= trace.take(k - 1));
        assert(!answered(trace[k - 1]));
        if overdue_before(trace, since, h.wake_timeout, k - 1) {
            let i = choose|i: int|
                0 <= i < k - 1 && overdue(#[trigger] trace[i], since, h.wake_timeout);
            assert(0 <= i < k && overdue(trace[i], since, h.wake_timeout));
        } else if overdue(trace[k - 1], since, h.wake_timeout) {
            assert(0 <= k - 1 < k && overdue(trace[k - 1], since, h.wake_timeout));
        } else if overdue_before(trace, since, h.wake_timeout, k) {
            let i = choose|i: int|
                0 <= i < k && overdue(#[trigger] trace[i], since, h.wake_timeout);
            assert(0 <= i < k - 1);
        }
    }
}

} // verus!
