use helixrack::config::GRACE_PERIOD_MS;
use helixrack::counter::ConnectionCounter;
use helixrack::server::{
    accept, supervise, AcceptStep, Supervision, Terms, ACCEPT_ERROR_BACKOFF_MS, CANCEL_POLL_MS,
};

const TERMS: Terms = Terms { max_keepalive: 7, keep_alive_timeout_ms: 15_000 };

#[test]
fn a_counter_starts_at_zero() {
    assert_eq!(ConnectionCounter::new().accepted(), 0);
    assert_eq!(ConnectionCounter::default().in_flight(), 0);
}

#[test]
fn accepted_connections_are_counted() {
    let mut connections = ConnectionCounter::new();
    connections.record_accept();
    connections.record_accept();
    assert_eq!(connections.accepted(), 2);
    assert_eq!(connections.in_flight(), 0);
}

#[test]
fn requests_in_flight_come_and_go() {
    let mut connections = ConnectionCounter::new();
    connections.record_request_start();
    connections.record_request_start();
    connections.record_request_finish();
    assert_eq!(connections.in_flight(), 1);
    connections.adjust(true, true);
    assert_eq!(connections.in_flight(), 1);
    connections.adjust(true, false);
    assert_eq!(connections.in_flight(), 0);
    connections.adjust(false, true);
    assert_eq!(connections.in_flight(), 1);
    assert_eq!(connections.accepted(), 0);
}

#[test]
fn a_failed_accept_pauses_and_counts_nothing() {
    let mut connections = ConnectionCounter::new();
    assert_eq!(accept::<u8>(None, TERMS, &mut connections), AcceptStep::BackOff(10));
    assert_eq!(connections.accepted(), 0);
    assert_eq!(accept(Some(9u8), TERMS, &mut connections), AcceptStep::Serve(9, TERMS));
    assert_eq!(connections.accepted(), 1);
    assert_eq!(ACCEPT_ERROR_BACKOFF_MS, 10);
}

#[test]
fn every_attempt_is_dealt_with_whatever_came_before() {
    let attempts = [Some(1), None, None, Some(2), Some(3), None, Some(4)];
    let mut connections = ConnectionCounter::new();
    let mut served = Vec::new();
    let mut pauses = 0;
    for attempt in attempts {
        match accept(attempt, TERMS, &mut connections) {
            AcceptStep::Serve(socket, terms) => {
                assert_eq!(terms, TERMS);
                served.push(socket);
            }
            AcceptStep::BackOff(pause) => {
                assert_eq!(pause, 10);
                pauses += 1;
            }
        }
    }
    assert_eq!(served, [1, 2, 3, 4]);
    assert_eq!(pauses, 3);
    assert_eq!(connections.accepted(), 4);
}

#[test]
fn shutdown_lingers_for_requests_in_flight() {
    let mut connections = ConnectionCounter::new();
    assert_eq!(supervise(false, 0, GRACE_PERIOD_MS, &connections), Supervision::Serve(20));
    assert_eq!(supervise(true, 0, GRACE_PERIOD_MS, &connections), Supervision::Stop);
    connections.record_request_start();
    assert_eq!(
        supervise(true, 29_999, GRACE_PERIOD_MS, &connections),
        Supervision::Linger(CANCEL_POLL_MS)
    );
    assert_eq!(supervise(true, 30_000, GRACE_PERIOD_MS, &connections), Supervision::Stop);
    assert_eq!(supervise(false, 30_000, GRACE_PERIOD_MS, &connections), Supervision::Serve(20));
}
