use sse_bridge::keepalive::TickAction;
use sse_bridge::mux::{Multiplexer, MuxSource, OutboundMessage, CHANNEL_CAPACITY};
use sse_bridge::registry::{ClientInfo, ConnState, Registry, RegistryError};

fn text(s: &str) -> OutboundMessage {
    OutboundMessage::Text(s.as_bytes().to_vec())
}

fn message_bytes(m: &OutboundMessage) -> Vec<u8> {
    match m {
        OutboundMessage::Text(b) => b.clone(),
        OutboundMessage::Ping => b"<ping>".to_vec(),
        OutboundMessage::Close(b) => {
            let mut v = b"<close>".to_vec();
            v.extend_from_slice(b);
            v
        }
    }
}

#[test]
fn no_cross_source_interleaving_corruption() {
    let mut mux = Multiplexer::new();
    let payload = ["Hel", "lo", " wor", "ld"];
    for p in payload {
        assert!(mux.enqueue_payload(text(p)));
    }
    assert!(mux.enqueue_control(OutboundMessage::Ping));
    assert!(mux.enqueue_control(OutboundMessage::Close(b"bye".to_vec())));

    // Drain with an alternating preference: fair selection between sources.
    let mut from_payload = Vec::new();
    let mut from_control = Vec::new();
    let mut prefer_control = true;
    while let Some((src, m)) = mux.step(prefer_control) {
        match src {
            MuxSource::Payload => from_payload.push(message_bytes(&m)),
            MuxSource::Control => from_control.push(message_bytes(&m)),
        }
        prefer_control = !prefer_control;
    }

    // Every written message is byte-identical and complete to exactly one
    // enqueued message, and each source's order is preserved.
    let expected_payload: Vec<Vec<u8>> =
        payload.iter().map(|p| p.as_bytes().to_vec()).collect();
    assert_eq!(from_payload, expected_payload);
    assert_eq!(from_control, vec![b"<ping>".to_vec(), b"<close>bye".to_vec()]);
    assert_eq!(mux.payload_len(), 0);
    assert_eq!(mux.control_len(), 0);
}

#[test]
fn empty_multiplexer_steps_to_nothing() {
    let mut mux = Multiplexer::new();
    assert!(mux.step(true).is_none());
    assert!(mux.step(false).is_none());
}

#[test]
fn preference_picks_the_ready_source() {
    let mut mux = Multiplexer::new();
    assert!(mux.enqueue_payload(text("only")));
    // Control preferred but empty: payload serves anyway — no starvation.
    match mux.step(true) {
        Some((MuxSource::Payload, OutboundMessage::Text(b))) => {
            assert_eq!(b, b"only".to_vec())
        }
        _ => panic!("expected the payload message"),
    }
}

#[test]
fn full_queue_applies_backpressure() {
    let mut mux = Multiplexer::new();
    for i in 0..CHANNEL_CAPACITY {
        assert!(mux.enqueue_payload(text(&format!("m{}", i))));
    }
    assert!(!mux.enqueue_payload(text("overflow")));
    assert_eq!(mux.payload_len(), CHANNEL_CAPACITY);
    // Control queue is unaffected.
    assert!(mux.enqueue_control(OutboundMessage::Ping));
}

#[test]
fn register_lookup_deregister_cycle() {
    let mut reg = Registry::new();
    assert_eq!(reg.len(), 0);
    assert!(sse_bridge::orchestrator::accept_connection(&mut reg, 7, "/api/llm", "10.0.0.1", 1000)
        .is_ok());
    assert_eq!(reg.len(), 1);

    let conn = reg.lookup(7).expect("registered connection must be found");
    assert_eq!(conn.state, ConnState::Active);
    assert_eq!(conn.info.id, 7);
    assert_eq!(conn.info.request_path, "/api/llm");
    assert_eq!(conn.info.client_ip, "10.0.0.1");
    assert!(reg.lookup(8).is_none());

    // Duplicate ids are refused.
    assert_eq!(
        sse_bridge::orchestrator::accept_connection(&mut reg, 7, "/", "10.0.0.2", 2000),
        Err(RegistryError::AlreadyRegistered)
    );

    // Deregistration is idempotent and reports whether it removed.
    assert!(reg.deregister(7));
    assert!(!reg.deregister(7));
    assert!(reg.lookup(7).is_none());
}

#[test]
fn admission_limit_rejects_the_next_connection() {
    let mut reg = Registry::new();
    for id in 0..sse_bridge::registry::MAX_CONNECTIONS as u128 {
        assert!(sse_bridge::orchestrator::accept_connection(&mut reg, id, "/", "a", 0).is_ok());
    }
    assert_eq!(reg.len(), sse_bridge::registry::MAX_CONNECTIONS);
    assert_eq!(
        sse_bridge::orchestrator::accept_connection(&mut reg, u128::MAX, "/", "a", 0),
        Err(RegistryError::AtCapacity)
    );
    // Releasing one admits one again.
    assert!(reg.deregister(0));
    assert!(sse_bridge::orchestrator::accept_connection(&mut reg, u128::MAX, "/", "a", 0).is_ok());
}

#[test]
fn registry_tick_evicts_only_idle_connections() {
    let mut reg = Registry::new();
    sse_bridge::orchestrator::accept_connection(&mut reg, 1, "/", "a", 0).unwrap();

    // Activity at 40 s keeps it alive at the 60 s tick.
    assert!(reg.touch(1, 40_000));
    assert_eq!(reg.tick(1, 60_000), Some(TickAction::Ping));
    assert!(reg.lookup(1).is_some());

    // Idle past the threshold: evicted, and the tick says so.
    assert_eq!(reg.tick(1, 101_000), Some(TickAction::Evict));
    assert!(reg.lookup(1).is_none());
    assert_eq!(reg.tick(1, 102_000), None);
    assert!(!reg.touch(1, 103_000));
}

#[test]
fn client_info_counts_chunks_and_time() {
    let mut info = ClientInfo::new(9, "/api/llm", "127.0.0.1", 5_000);
    assert_eq!(info.increment_chunks(3), (1, 3));
    assert_eq!(info.increment_chunks(4), (2, 7));
    assert_eq!(info.chunks_sent, 2);
    assert_eq!(info.bytes_sent, 7);
    assert_eq!(info.duration_ms(6_500), 1_500u128);
}

#[test]
fn registry_accounts_delivered_chunks() {
    let mut reg = Registry::new();
    sse_bridge::orchestrator::accept_connection(&mut reg, 2, "/", "a", 0).unwrap();
    assert_eq!(reg.count_chunk(2, 10), Some((1, 10)));
    assert_eq!(reg.count_chunk(2, 5), Some((2, 15)));
    let conn = reg.lookup(2).unwrap();
    assert_eq!(conn.info.chunks_sent, 2);
    assert_eq!(conn.info.bytes_sent, 15);
    assert_eq!(reg.count_chunk(3, 1), None);
}
