//! What the engine counts: connections that it has accepted, and requests that
//! it is at work on.

use vstd::prelude::*;

verus! {

/// Counts accepted connections, and requests in flight: those whose head has
/// arrived and whose response is not written yet. A connection that idles
/// between two requests has none in flight.
#[derive(Debug)]
pub struct ConnectionCounter {
    accepted: usize,
    in_flight: usize,
}

/// The counts as plain values.
pub struct CounterView {
    pub accepted: usize,
    pub in_flight: usize,
}

impl View for ConnectionCounter {
    type V = CounterView;

    closed spec fn view(&self) -> CounterView {
        CounterView { accepted: self.accepted, in_flight: self.in_flight }
    }
}

/// What to do about the requests in flight while the engine shuts down.
#[derive(Debug, Clone, Copy, PartialEq, Eq, Structural)]
pub enum Drain {
    /// None is left.
    Drained,
    /// Some are left, and the grace period is over.
    Expired,
    /// Some are left: wait.
    Wait,
}

impl ConnectionCounter {
    /// Starts with both counts at zero.
    pub fn new() -> (counter: Self)
        ensures
            counter@ == (CounterView { accepted: 0, in_flight: 0 }),
    {
        ConnectionCounter { accepted: 0, in_flight: 0 }
    }

    /// How many connections have been accepted.
    pub fn accepted(&self) -> (count: usize)
        ensures
            count == self@.accepted,
    {
        self.accepted
    }

    /// How many requests are in flight.
    pub fn in_flight(&self) -> (count: usize)
        ensures
            count == self@.in_flight,
    {
        self.in_flight
    }

    /// Counts one more accepted connection.
    pub fn record_accept(&mut self)
        ensures
            final(self)@ == (CounterView {
                accepted: old(self)@.accepted.wrapping_add(1),
                in_flight: old(self)@.in_flight,
            }),
    {
        self.accepted = self.accepted.wrapping_add(1);
    }

    /// Counts one more request in flight.
    pub fn record_request_start(&mut self)
        ensures
            final(self)@ == (CounterView {
                accepted: old(self)@.accepted,
                in_flight: old(self)@.in_flight.wrapping_add(1),
            }),
    {
        self.in_flight = self.in_flight.wrapping_add(1);
    }

    /// Counts one request less in flight.
    pub fn record_request_finish(&mut self)
        ensures
            final(self)@ == (CounterView {
                accepted: old(self)@.accepted,
                in_flight: old(self)@.in_flight.wrapping_sub(1),
            }),
    {
        self.in_flight = self.in_flight.wrapping_sub(1);
    }

    /// Decides whether a shutdown goes on waiting for requests in flight, after
    /// it has waited `waited` milliseconds of a grace period of `grace_period`.
    pub fn drain(&self, waited: u64, grace_period: u64) -> (step: Drain)
        ensures
            step == (if self@.in_flight == 0 {
                Drain::Drained
            } else if waited >= grace_period {
                Drain::Expired
            } else {
                Drain::Wait
            }),
    {
        if self.in_flight == 0 {
            Drain::Drained
        } else if waited >= grace_period {
            Drain::Expired
        } else {
            Drain::Wait
        }
    }
}

impl Default for ConnectionCounter {
    fn default() -> (counter: Self)
        ensures
            counter@ == (CounterView { accepted: 0, in_flight: 0 }),
    {
        ConnectionCounter::new()
    }
}

/// The count of requests in flight once a connection has gone from having one
/// (`before`) to having one (`after`), or not.
pub open spec fn adjusted(count: usize, before: bool, after: bool) -> usize {
    if after && !before {
        count.wrapping_add(1)
    } else if before && !after {
        count.wrapping_sub(1)
    } else {
        count
    }
}

impl ConnectionCounter {
    /// Brings the count of requests in flight up to date with one connection.
    pub fn adjust(&mut self, before: bool, after: bool)
        ensures
            final(self)@ == (CounterView {
                accepted: old(self)@.accepted,
                in_flight: adjusted(old(self)@.in_flight, before, after),
            }),
    {
        if after && !before {
            self.record_request_start();
        } else if before && !after {
            self.record_request_finish();
        }
    }
}

/// The count once a connection has gone through the states `flags`, each telling
/// whether it has a request in flight, one step after the other.
pub open spec fn adjusted_along(count: usize, flags: Seq<bool>) -> usize
    decreases flags.len(),
{
    if flags.len() < 2 {
        count
    } else {
        adjusted(
            adjusted_along(count, flags.drop_last()),
            flags[flags.len() - 2],
            flags[flags.len() - 1],
        )
    }
}

/// However many steps a connection takes, the count depends only on where it
/// started and where it is. One that has no request in flight at either end
/// leaves the count as it was.
pub proof fn only_the_ends_count(count: usize, flags: Seq<bool>)
    requires
        flags.len() > 0,
    ensures
        adjusted_along(count, flags) == adjusted(count, flags.first(), flags.last()),
        !flags.first() && !flags.last() ==> adjusted_along(count, flags) == count,
    decreases flags.len(),
{
    if flags.len() > 1 {
        only_the_ends_count(count, flags.drop_last());
    }
}

/// The counts once `k` more connections have been accepted, one after the other.
pub open spec fn after_accepts(counts: CounterView, k: nat) -> CounterView
    decreases k,
{
    if k == 0 {
        counts
    } else {
        let before = after_accepts(counts, (k - 1) as nat);
        CounterView { accepted: before.accepted.wrapping_add(1), ..before }
    }
}

/// Every accepted connection counts as one, and as nothing else.
pub proof fn every_accept_counts_once(counts: CounterView, k: nat)
    requires
        counts.accepted + k <= usize::MAX,
    ensures
        after_accepts(counts, k).accepted == counts.accepted + k,
        after_accepts(counts, k).in_flight == counts.in_flight,
    decreases k,
{
    if k > 0 {
        every_accept_counts_once(counts, (k - 1) as nat);
    }
}

} // verus!
