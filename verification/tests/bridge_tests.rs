use sse_bridge::adapter::{
    build_upstream_request, connect_error_frame, request_json_bytes, status_is_success,
    upstream_error_frame, UpstreamAdapter,
};
use sse_bridge::orchestrator::{
    classify_route, content_type_for, echo_frame, error_frame, on_client_frame,
    on_upstream_end, on_upstream_status, parse_client_frame, ClientAction, ClientRequest, Route,
};
use sse_bridge::registry::{ConnState, Registry};
use sse_bridge::sse::parse_sse_line;

#[test]
fn echo_scenario_round_trips_the_message() {
    // {"type":"ECHO","message":"hi"} in, the same frame out, session open.
    let frame = b"{\"type\":\"ECHO\",\"message\":\"hi\"}".to_vec();
    let (state, action) = on_client_frame(ConnState::Active, &frame);
    assert_eq!(state, ConnState::Active);
    match action {
        ClientAction::Reply(out) => {
            assert_eq!(out, b"{\"type\":\"ECHO\",\"message\":\"hi\"}".to_vec())
        }
        _ => panic!("expected a reply"),
    }
}

#[test]
fn streaming_scenario_forwards_deltas_then_stop_notice() {
    let lines = [
        "data: {\"type\":\"content_block_delta\",\"delta\":{\"text\":\"Hel\"}}",
        "data: {\"type\":\"content_block_delta\",\"delta\":{\"text\":\"lo\"}}",
        "data: {\"type\":\"message_delta\",\"delta\":{\"stop_reason\":\"end_turn\"}}",
    ];
    let events: Vec<_> = lines
        .iter()
        .map(|l| parse_sse_line(l).expect("scenario frames must decode"))
        .collect();
    let mut adapter = UpstreamAdapter::new();
    let frames = adapter.run_events(&events);
    let texts: Vec<String> =
        frames.into_iter().map(|f| String::from_utf8(f).unwrap()).collect();
    assert_eq!(texts, vec!["Hel", "lo", "\nStop reason: end_turn"]);
    assert!(adapter.done);

    // Nothing is forwarded after the terminal notification.
    let more = parse_sse_line("data: {\"type\":\"content_block_delta\",\"delta\":{\"text\":\"late\"}}")
        .unwrap();
    assert!(adapter.on_event(&more).is_none());
}

#[test]
fn empty_stop_reason_does_not_end_the_stream() {
    let ev = parse_sse_line("data: {\"type\":\"message_delta\",\"delta\":{\"stop_reason\":\"\"}}")
        .unwrap();
    let mut adapter = UpstreamAdapter::new();
    assert!(adapter.on_event(&ev).is_none());
    assert!(!adapter.done);
}

#[test]
fn message_stop_ends_gracefully_without_a_frame() {
    let ev = parse_sse_line("data: {\"type\":\"message_stop\"}").unwrap();
    let mut adapter = UpstreamAdapter::new();
    assert!(adapter.on_event(&ev).is_none());
    assert!(adapter.done);
}

#[test]
fn upstream_failure_scenario_sends_exactly_one_error_frame() {
    let mut reg = Registry::new();
    sse_bridge::orchestrator::accept_connection(&mut reg, 5, "/api/llm", "a", 0).unwrap();
    assert!(reg.set_state(5, ConnState::AwaitingUpstream));

    let (state, frame) = on_upstream_status(ConnState::AwaitingUpstream, 500, "overloaded");
    let frame = frame.expect("a failure status must surface an error frame");
    assert_eq!(
        String::from_utf8(frame).unwrap(),
        "Upstream API error (500): overloaded\n"
    );
    assert_eq!(state, ConnState::Active);
    assert!(reg.set_state(5, state));

    // The registry still holds the connection afterward.
    let conn = reg.lookup(5).expect("connection must remain registered");
    assert_eq!(conn.state, ConnState::Active);
}

#[test]
fn success_status_keeps_streaming() {
    for s in [200u16, 204, 299] {
        assert!(status_is_success(s));
        let (state, frame) = on_upstream_status(ConnState::AwaitingUpstream, s, "");
        assert_eq!(state, ConnState::AwaitingUpstream);
        assert!(frame.is_none());
    }
    for s in [199u16, 300, 404, 500] {
        assert!(!status_is_success(s));
    }
}

#[test]
fn connect_error_is_surfaced_with_detail() {
    let (state, frame) = sse_bridge::orchestrator::on_upstream_connect_error(
        ConnState::AwaitingUpstream,
        "dns failure",
    );
    assert_eq!(state, ConnState::Active);
    assert_eq!(
        String::from_utf8(frame).unwrap(),
        "Error connecting to upstream API: dns failure\n"
    );
    assert_eq!(String::from_utf8(connect_error_frame("x")).unwrap(),
        "Error connecting to upstream API: x\n");
    assert_eq!(String::from_utf8(upstream_error_frame(429, "slow down")).unwrap(),
        "Upstream API error (429): slow down\n");
}

#[test]
fn second_prompt_while_streaming_is_rejected() {
    let prompt = b"{\"prompt\":\"tell me\"}".to_vec();
    let (s1, a1) = on_client_frame(ConnState::Active, &prompt);
    assert_eq!(s1, ConnState::AwaitingUpstream);
    match a1 {
        ClientAction::StartStreaming(p) => assert_eq!(p, "tell me"),
        _ => panic!("expected streaming to start"),
    }
    let (s2, a2) = on_client_frame(s1, &prompt);
    assert_eq!(s2, ConnState::AwaitingUpstream);
    match a2 {
        ClientAction::Reply(f) => {
            assert_eq!(f, b"{\"error\":\"a prompt is already streaming\"}".to_vec())
        }
        _ => panic!("expected a rejection frame"),
    }
    assert_eq!(on_upstream_end(s2), ConnState::Active);
}

#[test]
fn malformed_client_frame_gets_error_and_stays_open() {
    let (state, action) = on_client_frame(ConnState::Active, &b"{not json".to_vec());
    assert_eq!(state, ConnState::Active);
    match action {
        ClientAction::Reply(f) => {
            assert_eq!(f, b"{\"error\":\"unrecognized request\"}".to_vec())
        }
        _ => panic!("expected an error reply"),
    }
    assert!(matches!(
        parse_client_frame(&b"{\"type\":\"ECHO\"}".to_vec()),
        ClientRequest::Invalid
    ));
    assert!(matches!(
        parse_client_frame(&b"{\"prompt\":5}".to_vec()),
        ClientRequest::Invalid
    ));
    assert_eq!(
        error_frame("x\"y"),
        b"{\"error\":\"x\\\"y\"}".to_vec()
    );
}

#[test]
fn echo_frame_escapes_its_message() {
    assert_eq!(
        String::from_utf8(echo_frame("a\"b\n")).unwrap(),
        "{\"type\":\"ECHO\",\"message\":\"a\\\"b\\n\"}"
    );
}

#[test]
fn upstream_request_document_is_exact() {
    let req = build_upstream_request("m-1", "hi there".to_string());
    assert_eq!(req.model, "m-1");
    assert_eq!(req.max_tokens, 1024);
    assert!(req.stream);
    assert_eq!(req.messages.len(), 1);
    assert_eq!(req.messages[0].role, "user");
    assert_eq!(req.messages[0].content, "hi there");

    let body = String::from_utf8(request_json_bytes(&req)).unwrap();
    assert_eq!(
        body,
        "{\"model\":\"m-1\",\"max_tokens\":1024,\
         \"messages\":[{\"role\":\"user\",\"content\":\"hi there\"}],\"stream\":true}"
    );
}

#[test]
fn routes_match_the_table() {
    assert_eq!(classify_route("POST", "/api/echo"), Route::EchoApi);
    assert_eq!(classify_route("POST", "/api/llm"), Route::LlmApi);
    assert_eq!(classify_route("GET", "/"), Route::Index);
    assert_eq!(classify_route("GET", "/static/app.js"), Route::StaticFile);
    assert_eq!(classify_route("GET", "/health"), Route::Health);
    assert_eq!(classify_route("GET", "/api/echo"), Route::NotFound);
    assert_eq!(classify_route("POST", "/health"), Route::NotFound);
    assert_eq!(classify_route("DELETE", "/nope"), Route::NotFound);
}

#[test]
fn content_types_follow_the_extension() {
    assert_eq!(content_type_for("index.html"), "text/html");
    assert_eq!(content_type_for("app.min.js"), "application/javascript");
    assert_eq!(content_type_for("style.css"), "text/css");
    assert_eq!(content_type_for("archive.tar.gz"), "application/octet-stream");
    assert_eq!(content_type_for("README"), "application/octet-stream");
    assert_eq!(content_type_for("html"), "text/html");
}
