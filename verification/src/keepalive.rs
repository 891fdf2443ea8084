//! Keep-alive monitor: a per-connection idle timer.
//!
//! The monitor fires on a fixed tick interval. On each tick it compares the
//! time elapsed since the last inbound activity against the idle threshold:
//! an idle connection is evicted, a live one receives a liveness probe.
//! Every inbound byte resets the timer.

use vstd::prelude::*;

verus! {

/// Milliseconds between two keep-alive ticks.
pub const TICK_MILLIS: u64 = 30_000;

/// A connection with no inbound activity for longer than this many
/// milliseconds is evicted on the next tick.
pub const IDLE_THRESHOLD_MILLIS: u64 = 60_000;

/// What the monitor decides on one tick.
#[derive(Clone, Copy, Debug, PartialEq, Eq, Structural)]
pub enum TickAction {
    /// Enqueue a liveness probe on the control channel.
    Ping,
    /// Deregister the connection and stop the monitor.
    Evict,
}

/// Per-connection idle timer state. Times are milliseconds on a monotonic
/// clock supplied by the caller.
pub struct KeepAlive {
    /// Time of the most recent inbound activity.
    pub last_active: u64,
}

/// The decision taken on a tick at time `now` with most recent activity at
/// `last_active`: evict exactly when the elapsed time exceeds the threshold.
pub open spec fn spec_tick_action(last_active: u64, now: u64) -> TickAction {
    if now - last_active > IDLE_THRESHOLD_MILLIS {
        TickAction::Evict
    } else {
        TickAction::Ping
    }
}

impl KeepAlive {
    /// Start the timer: the accept itself counts as activity.
    pub fn new(now: u64) -> (r: Self)
        ensures
            r.last_active == now,
    {
        KeepAlive { last_active: now }
    }

    /// Record inbound activity at time `now`. The clock is monotonic, so
    /// `now` is never earlier than the previous activity.
    pub fn record_activity(&mut self, now: u64)
        requires
            old(self).last_active <= now,
        ensures
            final(self).last_active == now,
    {
        self.last_active = now;
    }

    /// One tick at time `now`: evict exactly when the connection has been
    /// idle for longer than the threshold, otherwise probe.
    pub fn on_tick(&self, now: u64) -> (a: TickAction)
        requires
            self.last_active <= now,
        ensures
            a == spec_tick_action(self.last_active, now),
            a == TickAction::Evict <==> now - self.last_active > IDLE_THRESHOLD_MILLIS,
    {
        if now - self.last_active > IDLE_THRESHOLD_MILLIS {
            TickAction::Evict
        } else {
            TickAction::Ping
        }
    }
}

/// One thing the monitor observes: inbound activity, or its own tick.
pub ghost enum MonEventV {
    Inbound { at: u64 },
    Tick { at: u64 },
}

pub open spec fn time_of(e: MonEventV) -> u64 {
    match e {
        MonEventV::Inbound { at } => at,
        MonEventV::Tick { at } => at,
    }
}

/// Times never decrease along the run, and never precede the initial
/// activity time.
pub open spec fn spec_mon_sorted(last: u64, events: Seq<MonEventV>) -> bool {
    (forall|i: int| 0 <= i < events.len() ==> last <= time_of(#[trigger] events[i]))
        && (forall|i: int, j: int|
        0 <= i <= j < events.len() ==> time_of(#[trigger] events[i]) <= time_of(
            #[trigger] events[j],
        ))
}

/// The monitor run over a time-ordered sequence of observations: inbound
/// activity resets the timer; a tick either evicts — ending the run — or
/// probes. The result is the eviction time, if the run evicts.
pub open spec fn spec_mon_run(last: u64, events: Seq<MonEventV>) -> Option<u64>
    decreases events.len(),
{
    if events.len() == 0 {
        None
    } else {
        match events[0] {
            MonEventV::Inbound { at } => spec_mon_run(at, events.drop_first()),
            MonEventV::Tick { at } => if spec_tick_action(last, at) is Evict {
                Some(at)
            } else {
                spec_mon_run(last, events.drop_first())
            },
        }
    }
}

/// Idle eviction: with no inbound activity, a tick schedule whose gaps are
/// at most one tick interval and which reaches past the idle deadline
/// evicts the connection, no later than one tick interval after the
/// deadline.
pub proof fn lemma_idle_eviction(last: u64, events: Seq<MonEventV>)
    requires
        events.len() > 0,
        spec_mon_sorted(last, events),
        forall|i: int| 0 <= i < events.len() ==> #[trigger] events[i] is Tick,
        forall|i: int|
            0 <= i < events.len() - 1 ==> time_of(#[trigger] events[i + 1]) <= time_of(events[i])
                + TICK_MILLIS,
        time_of(events[0]) <= last + IDLE_THRESHOLD_MILLIS + TICK_MILLIS,
        last + IDLE_THRESHOLD_MILLIS < time_of(events[events.len() - 1]),
    ensures
        spec_mon_run(last, events) is Some,
        last + IDLE_THRESHOLD_MILLIS < spec_mon_run(last, events)->Some_0 <= last
            + IDLE_THRESHOLD_MILLIS + TICK_MILLIS,
    decreases events.len(),
{
    let t0 = time_of(events[0]);
    if t0 > last + IDLE_THRESHOLD_MILLIS {
        assert(spec_tick_action(last, t0) is Evict);
    } else {
        assert(events.len() >= 2);
        let rest = events.drop_first();
        assert(forall|i: int| 0 <= i < rest.len() ==> rest[i] == events[i + 1]);
        assert(time_of(rest[0]) == time_of(events[1]) <= time_of(events[0]) + TICK_MILLIS);
        assert(forall|i: int|
            0 <= i < rest.len() - 1 ==> time_of(#[trigger] rest[i + 1]) <= time_of(rest[i])
                + TICK_MILLIS) by {
            assert(forall|i: int|
                0 <= i < rest.len() - 1 ==> #[trigger] rest[i + 1] == events[i + 2] && rest[i]
                    == events[i + 1]);
        }
        lemma_idle_eviction(last, rest);
    }
}

/// Liveness-reset: every inbound byte resets the idle timer, so a run in
/// which each tick stands within `gap` of the initial activity or of some
/// earlier inbound event, for a gap at most the idle threshold, never
/// evicts. Activity every 40 seconds against a 60-second threshold is an
/// instance.
pub proof fn lemma_liveness_reset(last: u64, events: Seq<MonEventV>, gap: u64)
    requires
        gap <= IDLE_THRESHOLD_MILLIS,
        spec_mon_sorted(last, events),
        forall|i: int|
            0 <= i < events.len() && #[trigger] events[i] is Tick ==> (time_of(events[i]) <= last
                + gap || exists|j: int|
                0 <= j < i && #[trigger] events[j] is Inbound && time_of(events[i]) <= time_of(
                    events[j],
                ) + gap),
    ensures
        spec_mon_run(last, events) is None,
    decreases events.len(),
{
    if events.len() > 0 {
        let rest = events.drop_first();
        assert(forall|i: int| 0 <= i < rest.len() ==> rest[i] == events[i + 1]);
        match events[0] {
            MonEventV::Inbound { at } => {
                assert(last <= at);
                assert forall|i: int|
                    0 <= i < rest.len() && #[trigger] rest[i] is Tick implies (time_of(rest[i])
                    <= at + gap || exists|j: int|
                    0 <= j < i && #[trigger] rest[j] is Inbound && time_of(rest[i]) <= time_of(
                        rest[j],
                    ) + gap) by {
                    assert(events[i + 1] is Tick);
                    if time_of(events[i + 1]) <= last + gap {
                        assert(time_of(rest[i]) <= at + gap);
                    } else {
                        let j = choose|j: int|
                            0 <= j < i + 1 && #[trigger] events[j] is Inbound && time_of(
                                events[i + 1],
                            ) <= time_of(events[j]) + gap;
                        if j == 0 {
                            assert(time_of(rest[i]) <= at + gap);
                        } else {
                            assert(rest[j - 1] is Inbound && time_of(rest[i]) <= time_of(
                                rest[j - 1],
                            ) + gap);
                        }
                    }
                }
                lemma_liveness_reset(at, rest, gap);
            },
            MonEventV::Tick { at } => {
                assert(time_of(events[0]) <= last + gap) by {
                    if !(time_of(events[0]) <= last + gap) {
                        let j = choose|j: int|
                            0 <= j < 0 && #[trigger] events[j] is Inbound && time_of(events[0])
                                <= time_of(events[j]) + gap;
                        assert(false);
                    }
                }
                assert(spec_tick_action(last, at) is Ping);
                assert forall|i: int|
                    0 <= i < rest.len() && #[trigger] rest[i] is Tick implies (time_of(rest[i])
                    <= last + gap || exists|j: int|
                    0 <= j < i && #[trigger] rest[j] is Inbound && time_of(rest[i]) <= time_of(
                        rest[j],
                    ) + gap) by {
                    assert(events[i + 1] is Tick);
                    if time_of(events[i + 1]) <= last + gap {
                    } else {
                        let j = choose|j: int|
                            0 <= j < i + 1 && #[trigger] events[j] is Inbound && time_of(
                                events[i + 1],
                            ) <= time_of(events[j]) + gap;
                        assert(j >= 1);
                        assert(rest[j - 1] is Inbound && time_of(rest[i]) <= time_of(rest[j - 1])
                            + gap);
                    }
                }
                lemma_liveness_reset(last, rest, gap);
            },
        }
    }
}

} // verus!
