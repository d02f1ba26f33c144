//! The watch over a request that takes long: when its time slice is over, the
//! program is told so, once.
//!
//! [`Watchdog`] is what the request's thread and the watching thread share;
//! [`Watcher`] is what the watching thread keeps to itself. Instants are given
//! in nanoseconds since some moment before the watch began.

use vstd::prelude::*;

verus! {

/// Nanoseconds in a millisecond.
pub const NANOS_PER_MILLI: u64 = 1000000;

/// What the watch is set to.
#[derive(Debug, Clone, Copy, PartialEq, Eq, Structural)]
pub enum Watch {
    /// Nothing to watch.
    Idle,
    /// A time slice that is over at this instant.
    Armed(u128),
    /// The watch has ended.
    Shutdown,
}

/// The shared state. The generation goes up whenever the watch is armed or
/// disarmed, so that two armed periods can be told apart.
#[derive(Debug, Clone, Copy, PartialEq, Eq, Structural)]
pub struct Watchdog {
    pub watch: Watch,
    pub generation: u64,
}

/// What the watching thread does next.
#[derive(Debug, Clone, Copy, PartialEq, Eq, Structural)]
pub enum WatchStep {
    /// End.
    Exit,
    /// Sleep until the shared state changes.
    Sleep,
    /// Sleep until the shared state changes, at most for so many nanoseconds.
    SleepFor(u128),
    /// Tell the program that the time slice is over.
    Fire,
}

/// The watching thread's own state: the generation that it has fired for last.
#[derive(Debug, Clone, Copy, PartialEq, Eq, Structural)]
pub struct Watcher {
    pub fired: Option<u64>,
}

impl Watchdog {
    /// A watch with nothing to do.
    pub fn new() -> (watchdog: Self)
        ensures
            watchdog == (Watchdog { watch: Watch::Idle, generation: 0 }),
    {
        Watchdog { watch: Watch::Idle, generation: 0 }
    }

    /// The watch, once it is armed at `now` for `slice_ms` milliseconds.
    pub open spec fn armed(self, now: u64, slice_ms: u64) -> Watchdog {
        Watchdog {
            watch: Watch::Armed((now + slice_ms * NANOS_PER_MILLI) as u128),
            generation: (self.generation + 1) as u64,
        }
    }

    /// The watch, once it is disarmed.
    pub open spec fn disarmed(self) -> Watchdog {
        Watchdog { watch: Watch::Idle, generation: (self.generation + 1) as u64 }
    }

    /// Arms the watch.
    pub fn arm(&mut self, now: u64, slice_ms: u64)
        requires
            old(self).generation < u64::MAX,
        ensures
            *final(self) == old(self).armed(now, slice_ms),
    {
        assert(slice_ms * NANOS_PER_MILLI <= u64::MAX * u64::MAX) by (nonlinear_arith)
            requires
                slice_ms <= u64::MAX,
                NANOS_PER_MILLI <= u64::MAX,
        ;
        let slice: u128 = slice_ms as u128 * NANOS_PER_MILLI as u128;
        self.watch = Watch::Armed(now as u128 + slice);
        self.generation = self.generation + 1;
    }

    /// Disarms the watch.
    pub fn disarm(&mut self)
        requires
            old(self).generation < u64::MAX,
        ensures
            *final(self) == old(self).disarmed(),
    {
        self.watch = Watch::Idle;
        self.generation = self.generation + 1;
    }

    /// The watch, once it has ended. The generation stays: it tells armed periods
    /// apart, and this is none.
    pub open spec fn ended(self) -> Watchdog {
        Watchdog { watch: Watch::Shutdown, ..self }
    }

    /// Ends the watch, and with it the watching thread.
    pub fn shutdown(&mut self)
        ensures
            *final(self) == old(self).ended(),
    {
        self.watch = Watch::Shutdown;
    }
}

impl Watcher {
    /// A watching thread that has not fired yet.
    pub fn new() -> (watcher: Self)
        ensures
            watcher == (Watcher { fired: None }),
    {
        Watcher { fired: None }
    }

    /// What the watching thread does next on finding `shared` at `now`, and what
    /// it remembers.
    pub open spec fn stepping(self, shared: Watchdog, now: u64) -> (Watcher, WatchStep) {
        match shared.watch {
            Watch::Shutdown => (self, WatchStep::Exit),
            Watch::Idle => (self, WatchStep::Sleep),
            Watch::Armed(deadline) => if self.fired == Some(shared.generation) {
                (self, WatchStep::Sleep)
            } else if now < deadline {
                (self, WatchStep::SleepFor((deadline - now) as u128))
            } else {
                (Watcher { fired: Some(shared.generation) }, WatchStep::Fire)
            },
        }
    }

    /// Decides what the watching thread does next. A watch that has ended ends
    /// the thread, whatever went before; having fired for a slice, the thread
    /// waits for that slice to be given up.
    pub fn step(&mut self, shared: &Watchdog, now: u64) -> (step: WatchStep)
        ensures
            (*final(self), step) == old(self).stepping(*shared, now),
    {
        match shared.watch {
            Watch::Shutdown => WatchStep::Exit,
            Watch::Idle => WatchStep::Sleep,
            Watch::Armed(deadline) => {
                if self.fired == Some(shared.generation) {
                    WatchStep::Sleep
                } else if (now as u128) < deadline {
                    WatchStep::SleepFor(deadline - now as u128)
                } else {
                    self.fired = Some(shared.generation);
                    WatchStep::Fire
                }
            },
        }
    }
}

/// The watch fires for a time slice that is over, and for nothing else.
pub proof fn fires_only_when_a_slice_is_over(watcher: Watcher, shared: Watchdog, now: u64)
    ensures
        watcher.stepping(shared, now).1 == WatchStep::Fire ==> shared.watch is Armed
            && shared.watch->Armed_0 <= now,
{
}

/// The watch fires once for a time slice: having fired, it does not fire again,
/// however late it gets, until it has been armed or disarmed.
pub proof fn fires_once_for_a_slice(
    watcher: Watcher,
    shared: Watchdog,
    now: u64,
    after: Watchdog,
    later: u64,
)
    requires
        watcher.stepping(shared, now).1 == WatchStep::Fire,
        after.generation == shared.generation,
    ensures
        watcher.stepping(shared, now).0.stepping(after, later) == (
            watcher.stepping(shared, now).0,
            if after.watch == Watch::Shutdown {
                WatchStep::Exit
            } else {
                WatchStep::Sleep
            },
        ),
{
}

/// A watch that is shut down ends the watching thread, whatever state it was in:
/// idle, armed, or armed and fired for already.
pub proof fn a_shutdown_ends_the_watch(watcher: Watcher, before: Watchdog, now: u64)
    ensures
        watcher.stepping(before.ended(), now) == (watcher, WatchStep::Exit),
{
}

/// The watching thread has fired for no generation that is still to come. This
/// holds of every watch and its watching thread.
pub open spec fn in_step(watcher: Watcher, shared: Watchdog) -> bool {
    watcher.fired matches Some(generation) ==> generation <= shared.generation
}

/// A watch starts in step with its watching thread, and stays so whatever is done
/// to it and whenever the thread looks.
pub proof fn watches_stay_in_step(
    watcher: Watcher,
    shared: Watchdog,
    now: u64,
    slice_ms: u64,
)
    requires
        in_step(watcher, shared),
    ensures
        in_step(
            Watcher { fired: None },
            Watchdog { watch: Watch::Idle, generation: 0 },
        ),
        in_step(watcher.stepping(shared, now).0, shared),
        in_step(watcher, shared.ended()),
        shared.generation < u64::MAX ==> {
            &&& in_step(watcher, shared.armed(now, slice_ms))
            &&& in_step(watcher, shared.disarmed())
        },
{
}

/// A slice that is over is told, whatever was fired for before.
pub proof fn a_slice_that_is_over_is_told(
    watcher: Watcher,
    before: Watchdog,
    start: u64,
    slice_ms: u64,
    now: u64,
)
    requires
        before.generation < u64::MAX,
        in_step(watcher, before),
        start + slice_ms * NANOS_PER_MILLI <= now,
    ensures
        watcher.stepping(before.armed(start, slice_ms), now).1 == WatchStep::Fire,
{
}

/// A slice that is given up before it is over is never told.
pub proof fn a_slice_that_is_given_up_is_not_told(
    watcher: Watcher,
    before: Watchdog,
    start: u64,
    slice_ms: u64,
    now: u64,
)
    ensures
        watcher.stepping(before.armed(start, slice_ms).disarmed(), now).1 == WatchStep::Sleep,
{
}

/// How often the watching thread fires when it looks at an unchanged watch at the
/// instants `looks`, whether it was woken for a reason or for none.
pub open spec fn fires(watcher: Watcher, shared: Watchdog, looks: Seq<u64>) -> nat
    decreases looks.len(),
{
    if looks.len() == 0 {
        0
    } else {
        let (next, step) = watcher.stepping(shared, looks.first());
        let first: nat = if step == WatchStep::Fire {
            1
        } else {
            0
        };
        first + fires(next, shared, looks.drop_first())
    }
}

/// Some look comes when the deadline has passed.
pub open spec fn looks_late(looks: Seq<u64>, deadline: int) -> bool {
    exists|i: int| 0 <= i < looks.len() && deadline <= #[trigger] looks[i]
}

proof fn lemma_fired_for_already(watcher: Watcher, shared: Watchdog, looks: Seq<u64>)
    requires
        watcher.fired == Some(shared.generation) || shared.watch !is Armed,
    ensures
        fires(watcher, shared, looks) == 0,
    decreases looks.len(),
{
    if looks.len() > 0 {
        lemma_fired_for_already(watcher, shared, looks.drop_first());
    }
}

/// Over a whole armed period, from its arming to the next change, the watch fires
/// exactly once where the watching thread looks at or after the deadline, and not
/// at all where it does not, however often it looks.
pub proof fn an_armed_period_is_told_once(
    watcher: Watcher,
    before: Watchdog,
    start: u64,
    slice_ms: u64,
    looks: Seq<u64>,
)
    requires
        before.generation < u64::MAX,
        in_step(watcher, before),
    ensures
        fires(watcher, before.armed(start, slice_ms), looks) == (if looks_late(
            looks,
            start + slice_ms * NANOS_PER_MILLI,
        ) {
            1nat
        } else {
            0nat
        }),
    decreases looks.len(),
{
    let shared = before.armed(start, slice_ms);
    let deadline = start + slice_ms * NANOS_PER_MILLI;
    assert(shared.watch == Watch::Armed(deadline as u128));
    if looks.len() > 0 {
        let rest = looks.drop_first();
        if deadline <= looks[0] {
            lemma_fired_for_already(watcher.stepping(shared, looks[0]).0, shared, rest);
            assert(looks_late(looks, deadline));
        } else {
            an_armed_period_is_told_once(watcher, before, start, slice_ms, rest);
            if looks_late(rest, deadline) {
                let i = choose|i: int| 0 <= i < rest.len() && deadline <= #[trigger] rest[i];
                assert(deadline <= looks[i + 1]);
            }
            if looks_late(looks, deadline) {
                let i = choose|i: int| 0 <= i < looks.len() && deadline <= #[trigger] looks[i];
                assert(deadline <= rest[i - 1]);
            }
        }
    }
}

/// While the watch is idle, or has ended, nothing is told.
pub proof fn nothing_is_told_unless_armed(watcher: Watcher, shared: Watchdog, looks: Seq<u64>)
    requires
        shared.watch !is Armed,
    ensures
        fires(watcher, shared, looks) == 0,
{
    lemma_fired_for_already(watcher, shared, looks);
}

/// What can happen to a watch.
pub enum WatchEvent {
    Arm { now: u64, slice_ms: u64 },
    Disarm,
    Shutdown,
    /// The watching thread looks.
    Look { now: u64 },
}

/// A watch, its watching thread, and the generations that were fired for.
pub struct WatchHistory {
    pub shared: Watchdog,
    pub watcher: Watcher,
    pub told: Seq<u64>,
}

/// What has become of a fresh watch after `events`.
pub open spec fn history(events: Seq<WatchEvent>) -> WatchHistory
    decreases events.len(),
{
    if events.len() == 0 {
        WatchHistory {
            shared: Watchdog { watch: Watch::Idle, generation: 0 },
            watcher: Watcher { fired: None },
            told: Seq::empty(),
        }
    } else {
        let before = history(events.drop_last());
        match events.last() {
            WatchEvent::Arm { now, slice_ms } => WatchHistory {
                shared: before.shared.armed(now, slice_ms),
                ..before
            },
            WatchEvent::Disarm => WatchHistory { shared: before.shared.disarmed(), ..before },
            WatchEvent::Shutdown => WatchHistory { shared: before.shared.ended(), ..before },
            WatchEvent::Look { now } => {
                let (watcher, step) = before.watcher.stepping(before.shared, now);
                let told = if step == WatchStep::Fire {
                    before.told.push(before.shared.generation)
                } else {
                    before.told
                };
                WatchHistory { watcher, told, ..before }
            },
        }
    }
}

/// In the whole life of a watch no armed period is told twice, and none out of
/// turn; the watch is in step with its watching thread throughout.
pub proof fn no_period_is_told_twice(events: Seq<WatchEvent>)
    requires
        events.len() < u64::MAX,
    ensures
        in_step(history(events).watcher, history(events).shared),
        forall|i: int, j: int|
            0 <= i < j < history(events).told.len() ==> #[trigger] history(events).told[i]
                < #[trigger] history(events).told[j],
{
    lemma_history(events);
}

proof fn lemma_history(events: Seq<WatchEvent>)
    requires
        events.len() < u64::MAX,
    ensures
        ({
            let now = history(events);
            &&& now.shared.generation <= events.len()
            &&& in_step(now.watcher, now.shared)
            &&& now.watcher.fired is None ==> now.told.len() == 0
            &&& now.watcher.fired matches Some(generation) ==> now.told.len() > 0
                && now.told.last() == generation
            &&& forall|i: int, j: int|
                0 <= i < j < now.told.len() ==> #[trigger] now.told[i] < #[trigger] now.told[j]
        }),
    decreases events.len(),
{
    if events.len() > 0 {
        lemma_history(events.drop_last());
    }
}

/// The watching thread looks at the instants `looks`.
pub open spec fn looking(looks: Seq<u64>) -> Seq<WatchEvent> {
    looks.map_values(|now: u64| WatchEvent::Look { now })
}

proof fn lemma_looking(events: Seq<WatchEvent>, looks: Seq<u64>)
    ensures
        ({
            let before = history(events);
            let after = history(events + looking(looks));
            let count = fires(before.watcher, before.shared, looks);
            &&& after.shared == before.shared
            &&& count <= 1
            &&& count == 0 ==> after.told == before.told && after.watcher == before.watcher
            &&& count == 1 ==> after.told == before.told.push(before.shared.generation)
                && after.watcher.fired == Some(before.shared.generation)
        }),
    decreases looks.len(),
{
    let before = history(events);
    if looks.len() == 0 {
        assert(events + looking(looks) =~= events);
    } else {
        let look = WatchEvent::Look { now: looks[0] };
        let rest = looks.drop_first();
        assert(events + looking(looks) =~= events.push(look) + looking(rest));
        assert(events.push(look).drop_last() =~= events);
        lemma_looking(events.push(look), rest);
        let (next, step) = before.watcher.stepping(before.shared, looks[0]);
        if step == WatchStep::Fire {
            lemma_fired_for_already(next, before.shared, rest);
        }
    }
}

/// Whatever a watch has been through, an armed period that follows is told exactly
/// once where the watching thread looks at or after its deadline while it lasts, and
/// not at all where it does not; and once the slice is given up, nothing is told
/// however late the thread looks.
pub proof fn every_armed_period_is_told_once(
    events: Seq<WatchEvent>,
    start: u64,
    slice_ms: u64,
    looks: Seq<u64>,
    later: Seq<u64>,
)
    requires
        events.len() + 2 < u64::MAX,
    ensures
        ({
            let before = history(events);
            let period = events.push(WatchEvent::Arm { now: start, slice_ms }) + looking(looks);
            let over = period.push(WatchEvent::Disarm) + looking(later);
            let deadline = start + slice_ms * NANOS_PER_MILLI;
            let generation = (before.shared.generation + 1) as u64;
            &&& history(period).told == (if looks_late(looks, deadline) {
                before.told.push(generation)
            } else {
                before.told
            })
            &&& history(over).told == history(period).told
            &&& history(over).shared.watch == Watch::Idle
        }),
{
    let before = history(events);
    let arming = events.push(WatchEvent::Arm { now: start, slice_ms });
    let period = arming + looking(looks);
    let giving_up = period.push(WatchEvent::Disarm);
    lemma_history(events);
    assert(arming.drop_last() =~= events);
    assert(giving_up.drop_last() =~= period);
    lemma_looking(arming, looks);
    an_armed_period_is_told_once(before.watcher, before.shared, start, slice_ms, looks);
    lemma_looking(giving_up, later);
    nothing_is_told_unless_armed(history(giving_up).watcher, history(giving_up).shared, later);
}

/// A watch that is armed for a slice and then disarmed is idle, two generations on,
/// whether or not it was fired for meanwhile.
pub proof fn a_slice_leaves_the_watch_idle(
    events: Seq<WatchEvent>,
    start: u64,
    slice_ms: u64,
    looks: Seq<u64>,
)
    requires
        events.len() + 2 < u64::MAX,
    ensures
        ({
            let before = history(events).shared;
            let period = events.push(WatchEvent::Arm { now: start, slice_ms }) + looking(looks);
            &&& history(period).shared == before.armed(start, slice_ms)
            &&& history(period.push(WatchEvent::Disarm)).shared == (Watchdog {
                watch: Watch::Idle,
                generation: (before.generation + 2) as u64,
            })
            &&& before.generation + 2 <= u64::MAX
        }),
{
    let arming = events.push(WatchEvent::Arm { now: start, slice_ms });
    let period = arming + looking(looks);
    lemma_history(events);
    assert(arming.drop_last() =~= events);
    assert(period.push(WatchEvent::Disarm).drop_last() =~= period);
    lemma_looking(arming, looks);
}

} // verus!
