//! The server around the connections: accepting them, and stopping.

use vstd::prelude::*;
use crate::counter;
use crate::counter::{ConnectionCounter, Drain};

verus! {

/// How long to wait, in milliseconds, after a connection could not be accepted.
pub const ACCEPT_ERROR_BACKOFF_MS: u64 = 10;

/// How often, in milliseconds, to look whether the server is to stop.
pub const CANCEL_POLL_MS: u64 = 20;

/// What every connection is served with.
#[derive(Debug, Clone, Copy, PartialEq, Eq, Structural)]
pub struct Terms {
    /// The requests that are answered before a connection closes.
    pub max_keepalive: usize,
    /// How long a connection may idle, in milliseconds.
    pub keep_alive_timeout_ms: u64,
}

/// What to do after an attempt to accept a connection. Ending is no part of it.
#[derive(Debug, PartialEq, Eq)]
pub enum AcceptStep<S> {
    /// Serve the connection on these terms, and try for the next.
    Serve(S, Terms),
    /// Wait so many milliseconds and try again.
    BackOff(u64),
}

/// What an attempt to accept a connection leads to.
pub open spec fn accept_step<S>(attempt: Option<S>, terms: Terms) -> AcceptStep<S> {
    match attempt {
        Some(socket) => AcceptStep::Serve(socket, terms),
        None => AcceptStep::BackOff(ACCEPT_ERROR_BACKOFF_MS),
    }
}

/// The counts after an attempt to accept a connection.
pub open spec fn accept_counts<S>(attempt: Option<S>, counts: counter::CounterView) ->
    counter::CounterView {
    match attempt {
        Some(_) => counter::CounterView { accepted: counts.accepted.wrapping_add(1), ..counts },
        None => counts,
    }
}

/// Takes in what an attempt to accept a connection gave: the connection's socket, or
/// none where it failed. A failure ends nothing: the next attempt comes after a
/// pause.
pub fn accept<S>(attempt: Option<S>, terms: Terms, connections: &mut ConnectionCounter) -> (step:
    AcceptStep<S>)
    ensures
        step == accept_step(attempt, terms),
        final(connections)@ == accept_counts(attempt, old(connections)@),
{
    match attempt {
        Some(socket) => {
            connections.record_accept();
            AcceptStep::Serve(socket, terms)
        },
        None => AcceptStep::BackOff(ACCEPT_ERROR_BACKOFF_MS),
    }
}

/// The counts after a row of attempts.
pub open spec fn counts_after<S>(
    attempts: Seq<Option<S>>,
    counts: counter::CounterView,
) -> counter::CounterView
    decreases attempts.len(),
{
    if attempts.len() == 0 {
        counts
    } else {
        accept_counts(attempts.last(), counts_after(attempts.drop_last(), counts))
    }
}

/// The steps that a row of attempts leads to.
pub open spec fn steps_after<S>(attempts: Seq<Option<S>>, terms: Terms) -> Seq<AcceptStep<S>> {
    attempts.map_values(|attempt: Option<S>| accept_step(attempt, terms))
}

/// The sockets that attempts gave, in order.
pub open spec fn sockets<S>(attempts: Seq<Option<S>>) -> Seq<S>
    decreases attempts.len(),
{
    if attempts.len() == 0 {
        Seq::empty()
    } else {
        match attempts.last() {
            Some(socket) => sockets(attempts.drop_last()).push(socket),
            None => sockets(attempts.drop_last()),
        }
    }
}

/// The sockets that steps have served, in order.
pub open spec fn served<S>(steps: Seq<AcceptStep<S>>) -> Seq<S>
    decreases steps.len(),
{
    if steps.len() == 0 {
        Seq::empty()
    } else {
        match steps.last() {
            AcceptStep::Serve(socket, _) => served(steps.drop_last()).push(socket),
            AcceptStep::BackOff(_) => served(steps.drop_last()),
        }
    }
}

/// Whatever row of attempts the server makes: each connection that is accepted is
/// counted once and served once, in order and on the same terms as every other; each
/// failure counts nothing and is followed by a pause of 10 milliseconds; and there is
/// a step for each attempt, so that none of them ends the server.
pub proof fn every_attempt_is_dealt_with<S>(
    attempts: Seq<Option<S>>,
    terms: Terms,
    counts: counter::CounterView,
)
    requires
        counts.accepted + sockets(attempts).len() <= usize::MAX,
    ensures
        counts_after(attempts, counts).accepted == counts.accepted + sockets(attempts).len(),
        counts_after(attempts, counts).in_flight == counts.in_flight,
        served(steps_after(attempts, terms)) == sockets(attempts),
        steps_after(attempts, terms).len() == attempts.len(),
        forall|i: int|
            0 <= i < attempts.len() ==> match #[trigger] steps_after(attempts, terms)[i] {
                AcceptStep::Serve(socket, given) => attempts[i] == Some(socket) && given == terms,
                AcceptStep::BackOff(pause) => attempts[i] is None && pause == 10,
            },
    decreases attempts.len(),
{
    if attempts.len() > 0 {
        every_attempt_is_dealt_with(attempts.drop_last(), terms, counts);
        assert(steps_after(attempts, terms).drop_last() =~= steps_after(
            attempts.drop_last(),
            terms,
        ));
    }
}

/// What the server as a whole does.
#[derive(Debug, Clone, Copy, PartialEq, Eq, Structural)]
pub enum Supervision {
    /// Accept connections, and look again after so many milliseconds.
    Serve(u64),
    /// Accept none, let requests in flight go on, and look again after so many
    /// milliseconds.
    Linger(u64),
    /// Stop.
    Stop,
}

/// Decides what the server does. Once it is `cancelled` it accepts no more
/// connections, and stops when no request is in flight or when it has lingered
/// for the grace period.
pub fn supervise(
    cancelled: bool,
    lingered: u64,
    grace_period: u64,
    connections: &ConnectionCounter,
) -> (supervision: Supervision)
    ensures
        supervision == (if !cancelled {
            Supervision::Serve(CANCEL_POLL_MS)
        } else if connections@.in_flight != 0 && lingered < grace_period {
            Supervision::Linger(CANCEL_POLL_MS)
        } else {
            Supervision::Stop
        }),
{
    if !cancelled {
        return Supervision::Serve(CANCEL_POLL_MS);
    }
    match connections.drain(lingered, grace_period) {
        Drain::Wait => Supervision::Linger(CANCEL_POLL_MS),
        Drain::Drained => Supervision::Stop,
        Drain::Expired => Supervision::Stop,
    }
}

} // verus!
