use sse_bridge::keepalive::{KeepAlive, TickAction, IDLE_THRESHOLD_MILLIS, TICK_MILLIS};

#[test]
fn tick_boundary_is_strict() {
    let ka = KeepAlive::new(0);
    assert_eq!(ka.on_tick(IDLE_THRESHOLD_MILLIS), TickAction::Ping);
    assert_eq!(ka.on_tick(IDLE_THRESHOLD_MILLIS + 1), TickAction::Evict);
}

#[test]
fn idle_connection_is_evicted_within_one_tick_of_threshold() {
    // No inbound activity after time 0; ticks every 30 s.
    let ka = KeepAlive::new(0);
    let mut evicted_at = None;
    let mut t = TICK_MILLIS;
    while evicted_at.is_none() && t < 10 * TICK_MILLIS {
        if ka.on_tick(t) == TickAction::Evict {
            evicted_at = Some(t);
        }
        t += TICK_MILLIS;
    }
    let at = evicted_at.expect("an idle connection must be evicted");
    assert!(at > IDLE_THRESHOLD_MILLIS);
    assert!(at <= IDLE_THRESHOLD_MILLIS + TICK_MILLIS);
}

#[test]
fn activity_every_40_seconds_is_never_evicted() {
    // Inbound every 40 s against a 60 s threshold; ticks every 30 s.
    let mut ka = KeepAlive::new(0);
    let mut next_activity: u64 = 40_000;
    let mut tick: u64 = TICK_MILLIS;
    while tick <= 1_000_000 {
        while next_activity <= tick {
            ka.record_activity(next_activity);
            next_activity += 40_000;
        }
        assert_eq!(ka.on_tick(tick), TickAction::Ping);
        tick += TICK_MILLIS;
    }
}

#[test]
fn any_inbound_byte_resets_the_timer() {
    let mut ka = KeepAlive::new(0);
    assert_eq!(ka.on_tick(61_000), TickAction::Evict);
    ka.record_activity(61_000);
    assert_eq!(ka.on_tick(61_000 + IDLE_THRESHOLD_MILLIS), TickAction::Ping);
}
