use wol_proxy::handshake::{
    Handshake, HandshakeAction, HandshakeError, HandshakeEvent, HandshakeState, Report,
    PROBE_TIMEOUT, PROBE_WINDOW,
};

fn probed(reachable: bool, now: u64) -> Report {
    Report { event: HandshakeEvent::Probed { reachable }, now }
}

fn wake_sent(now: u64) -> Report {
    Report { event: HandshakeEvent::WakeSignalSent, now }
}

fn wake_failed(now: u64) -> Report {
    Report { event: HandshakeEvent::WakeSignalFailed, now }
}

const PROBE: HandshakeAction = HandshakeAction::Probe { timeout: 1000 };

#[test]
fn probe_constants_are_one_second() {
    assert_eq!(PROBE_TIMEOUT, 1000);
    assert_eq!(PROBE_WINDOW, 1000);
}

#[test]
fn handshake_starts_by_probing() {
    let handshake = Handshake::start(5000, 40);
    assert_eq!(handshake.wake_timeout, 5000);
    assert_eq!(handshake.state, HandshakeState::Probing { since: 40 });
    assert_eq!(handshake.pending(), PROBE);
}

#[test]
fn awake_target_needs_no_wake_signal() {
    let mut handshake = Handshake::start(5000, 0);
    assert_eq!(handshake.step(probed(true, 3)), HandshakeAction::Connect);
    assert_eq!(handshake.state, HandshakeState::Ready);
}

#[test]
fn probe_is_repeated_within_the_window() {
    let mut handshake = Handshake::start(5000, 100);
    assert_eq!(handshake.step(probed(false, 105)), PROBE);
    assert_eq!(handshake.step(probed(false, 1099)), PROBE);
    assert_eq!(handshake.state, HandshakeState::Probing { since: 100 });
    assert_eq!(handshake.step(probed(true, 1099)), HandshakeAction::Connect);
}

#[test]
fn probe_is_repeated_at_the_very_end_of_the_window() {
    let mut handshake = Handshake::start(5000, 100);
    assert_eq!(handshake.step(probed(false, 1100)), PROBE);
    assert_eq!(handshake.state, HandshakeState::Probing { since: 100 });
    assert_eq!(handshake.step(probed(true, 1800)), HandshakeAction::Connect);
}

#[test]
fn silent_target_gets_the_wake_signal_when_the_window_has_passed() {
    let mut handshake = Handshake::start(5000, 100);
    assert_eq!(handshake.step(probed(false, 1101)), HandshakeAction::SendWake);
    assert_eq!(handshake.state, HandshakeState::WakeSent);
    assert_eq!(handshake.pending(), HandshakeAction::SendWake);
}

#[test]
fn wake_reports_mean_nothing_while_probing() {
    let mut handshake = Handshake::start(5000, 0);
    assert_eq!(handshake.step(wake_sent(10)), PROBE);
    assert_eq!(handshake.step(wake_failed(20)), PROBE);
    assert_eq!(handshake.state, HandshakeState::Probing { since: 0 });
}

#[test]
fn sent_wake_signal_starts_the_wait() {
    let mut handshake = Handshake { wake_timeout: 5000, state: HandshakeState::WakeSent };
    assert_eq!(handshake.step(wake_sent(1234)), PROBE);
    assert_eq!(handshake.state, HandshakeState::Waiting { since: 1234 });
}

#[test]
fn failed_wake_signal_fails_the_connection() {
    let mut handshake = Handshake { wake_timeout: 5000, state: HandshakeState::WakeSent };
    let failure = HandshakeAction::Fail { error: HandshakeError::WakeSignalFailed };
    assert_eq!(handshake.step(wake_failed(1234)), failure);
    assert_eq!(
        handshake.state,
        HandshakeState::Failed { error: HandshakeError::WakeSignalFailed }
    );
    assert_eq!(handshake.step(probed(true, 1300)), failure);
}

#[test]
fn probe_report_in_place_of_the_send_report_never_asks_again() {
    let mut handshake = Handshake { wake_timeout: 5000, state: HandshakeState::WakeSent };
    assert_eq!(handshake.step(probed(false, 700)), PROBE);
    assert_eq!(handshake.state, HandshakeState::Waiting { since: 700 });

    let mut handshake = Handshake { wake_timeout: 5000, state: HandshakeState::WakeSent };
    assert_eq!(handshake.step(probed(true, 700)), HandshakeAction::Connect);
}

#[test]
fn wake_reports_mean_nothing_while_waiting() {
    let mut handshake =
        Handshake { wake_timeout: 5000, state: HandshakeState::Waiting { since: 1000 } };
    assert_eq!(handshake.step(wake_sent(1500)), PROBE);
    assert_eq!(handshake.step(wake_failed(1600)), PROBE);
    assert_eq!(handshake.state, HandshakeState::Waiting { since: 1000 });
}

#[test]
fn ready_is_final() {
    let mut handshake = Handshake { wake_timeout: 5000, state: HandshakeState::Ready };
    assert_eq!(handshake.step(probed(false, 99_999)), HandshakeAction::Connect);
    assert_eq!(handshake.step(wake_failed(99_999)), HandshakeAction::Connect);
    assert_eq!(handshake.state, HandshakeState::Ready);
}

#[test]
fn target_waking_after_two_seconds_is_forwarded_with_one_wake_signal() {
    // Wake timeout of five seconds; every probe that finds nothing takes its
    // full second.
    let mut handshake = Handshake::start(5000, 0);
    let mut actions = vec![handshake.pending()];
    actions.push(handshake.step(probed(false, 1001)));
    actions.push(handshake.step(wake_sent(1002)));
    actions.push(handshake.step(probed(false, 2002)));
    actions.push(handshake.step(probed(false, 3002)));
    actions.push(handshake.step(probed(true, 3400)));
    assert_eq!(
        actions,
        vec![PROBE, HandshakeAction::SendWake, PROBE, PROBE, PROBE, HandshakeAction::Connect]
    );
    let wakes = actions.iter().filter(|a| **a == HandshakeAction::SendWake).count();
    assert_eq!(wakes, 1);
    assert_eq!(handshake.state, HandshakeState::Ready);
}

#[test]
fn target_that_never_wakes_fails_with_wake_timeout() {
    // Wake timeout of three seconds, counted from the wake signal at 1001.
    // The probe that fails exactly three seconds later is followed by one
    // more.
    let mut handshake = Handshake::start(3000, 0);
    let mut actions = vec![handshake.pending()];
    actions.push(handshake.step(probed(false, 1001)));
    actions.push(handshake.step(wake_sent(1001)));
    for now in [2001, 3001, 4001] {
        actions.push(handshake.step(probed(false, now)));
    }
    assert_eq!(handshake.state, HandshakeState::Waiting { since: 1001 });
    actions.push(handshake.step(probed(false, 5001)));
    let timeout = HandshakeAction::Fail { error: HandshakeError::WakeTimeout };
    assert_eq!(
        actions,
        vec![PROBE, HandshakeAction::SendWake, PROBE, PROBE, PROBE, PROBE, timeout]
    );
    assert!(!actions.contains(&HandshakeAction::Connect));
    assert_eq!(handshake.state, HandshakeState::Failed { error: HandshakeError::WakeTimeout });
    // Nothing revives it, and a second handshake is none the worse for it.
    assert_eq!(handshake.step(probed(true, 5500)), timeout);
    let mut other = Handshake::start(3000, 5500);
    assert_eq!(other.step(probed(true, 5600)), HandshakeAction::Connect);
}

#[test]
fn polling_gives_up_only_after_the_wake_timeout() {
    // Three seconds to wake up, and every probe fails after a full second:
    // the probes at one, two and three seconds are each followed by another,
    // and the one at four seconds is the last.
    let mut handshake =
        Handshake { wake_timeout: 3000, state: HandshakeState::Waiting { since: 0 } };
    assert_eq!(handshake.step(probed(false, 1000)), PROBE);
    assert_eq!(handshake.step(probed(false, 2000)), PROBE);
    assert_eq!(handshake.step(probed(false, 3000)), PROBE);
    assert_eq!(handshake.state, HandshakeState::Waiting { since: 0 });
    assert_eq!(
        handshake.step(probed(false, 4000)),
        HandshakeAction::Fail { error: HandshakeError::WakeTimeout }
    );
}

#[test]
fn probe_made_at_the_wake_timeout_can_still_succeed() {
    let mut handshake =
        Handshake { wake_timeout: 3000, state: HandshakeState::Waiting { since: 0 } };
    assert_eq!(handshake.step(probed(false, 3000)), PROBE);
    assert_eq!(handshake.step(probed(true, 3700)), HandshakeAction::Connect);
    assert_eq!(handshake.state, HandshakeState::Ready);
}

#[test]
fn first_failure_past_the_wake_timeout_gives_up() {
    let mut handshake =
        Handshake { wake_timeout: 3000, state: HandshakeState::Waiting { since: 0 } };
    assert_eq!(
        handshake.step(probed(false, 3001)),
        HandshakeAction::Fail { error: HandshakeError::WakeTimeout }
    );
}

#[test]
fn long_polling_asks_for_one_wake_signal() {
    let mut handshake = Handshake::start(60_000, 0);
    let mut wakes = 0;
    let mut now = 0;
    let mut action = handshake.pending();
    while now < 59_000 {
        now += 250;
        let report = match action {
            HandshakeAction::SendWake => {
                wakes += 1;
                wake_sent(now)
            }
            _ => probed(false, now),
        };
        action = handshake.step(report);
    }
    assert_eq!(wakes, 1);
    assert_eq!(action, PROBE);
    assert_eq!(handshake.state, HandshakeState::Waiting { since: 1500 });
}

#[test]
fn zero_wake_timeout_gives_up_once_time_has_passed() {
    let mut handshake =
        Handshake { wake_timeout: 0, state: HandshakeState::Waiting { since: 500 } };
    assert_eq!(handshake.step(probed(false, 500)), PROBE);
    assert_eq!(
        handshake.step(probed(false, 501)),
        HandshakeAction::Fail { error: HandshakeError::WakeTimeout }
    );
}
