use serde_json::Value;
use thunder::program::{ProgramSnapshot, ProgramState, ProgramStatus};
use thunder::proxy::{forward_non_streaming_chat, ChatResponse, UpstreamReply};
use thunder::registry::snapshot_programs;
use thunder::router::{
    context_len, program_id_from_request, value_to_program_id, ChatRoute, RoutingMode,
    ThunderRouter,
};
use thunder::stream::{StreamEvent, StreamingProgramFinisher};

fn parsed(text: &str) -> Value {
    text.parse().unwrap()
}

fn router() -> ThunderRouter {
    let worker_urls = vec!["http://a".to_string(), "http://b".to_string()];
    ThunderRouter::new(RoutingMode::Thunder { worker_urls }).unwrap()
}

fn shown(router: &ThunderRouter, id: &str) -> ProgramSnapshot {
    for (key, snapshot) in snapshot_programs(router.programs()) {
        if key == id {
            return snapshot;
        }
    }
    panic!("no program {id}")
}

fn id_in(text: &str) -> String {
    program_id_from_request(&parsed(text))
}

#[test]
fn a_router_is_made_for_its_own_mode_only() {
    let router = router();
    assert_eq!(router.worker_urls().to_vec(), vec!["http://a", "http://b"]);
    assert_eq!(router.select_worker_url(), Some(&"http://a".to_string()));
    assert_eq!(router.router_type(), "thunder");
    assert_eq!(router.programs().len(), 0);
    let other = ThunderRouter::new(RoutingMode::Other { described: "Regular { x: 1 }".to_string() });
    assert_eq!(
        other.unwrap_err(),
        "ThunderRouter::new called with non-Thunder mode: Regular { x: 1 }"
    );
}

#[test]
fn the_program_of_a_request() {
    assert_eq!(id_in(r#"{"program_id":"p"}"#), "p");
    assert_eq!(id_in(r#"{"program_id":"p","extra_body":{"program_id":"q"}}"#), "p");
    assert_eq!(id_in(r#"{"extra_body":{"program_id":"q"}}"#), "q");
    assert_eq!(id_in(r#"{"extra_body":{}}"#), "default");
    assert_eq!(id_in(r#"{"extra_body":["program_id"]}"#), "default");
    assert_eq!(id_in("{}"), "default");
    assert_eq!(id_in("[]"), "default");
    assert_eq!(id_in(r#"{"program_id":7}"#), "7");
    assert_eq!(id_in(r#"{"program_id":null,"extra_body":{"program_id":"q"}}"#), "null");
    assert_eq!(id_in(r#"{"extra_body":{"program_id":{"b":[1,true],"a":"x"}}}"#), r#"{"a":"x","b":[1,true]}"#);
}

#[test]
fn texts_are_ids_without_quotes() {
    assert_eq!(value_to_program_id(&parsed(r#""a\"b""#)), "a\"b");
    assert_eq!(value_to_program_id(&parsed("-1.5")), "-1.5");
    assert_eq!(value_to_program_id(&parsed(r#"["a"]"#)), r#"["a"]"#);
}

#[test]
fn the_length_of_a_request_is_that_of_its_bytes() {
    assert_eq!(context_len(&parsed(r#" { "a" : "é" } "#)), r#"{"a":"é"}"#.len());
    assert_eq!(context_len(&parsed("null")), 4);
}

#[test]
fn requests_are_counted_per_program() {
    let mut router = router();
    for (id, count) in [("A", 1u64), ("B", 1), ("A", 2)] {
        let body = parsed(&format!(r#"{{"program_id":"{id}","messages":[]}}"#));
        match router.route_chat(&body) {
            ChatRoute::Forward { worker_url, program_id, payload, stream } => {
                assert_eq!(worker_url, "http://a");
                assert_eq!(program_id, id);
                assert_eq!(payload, parsed(r#"{"messages":[]}"#));
                assert!(!stream);
            }
            other => panic!("{other:?}"),
        }
        let program = shown(&router, id);
        assert_eq!(program.step_count, count);
        assert_eq!(program.status, ProgramStatus::Reasoning);
        assert_eq!(program.state, ProgramState::Active);
        assert_eq!(program.context_len, body.to_string().len());
        assert_eq!(program.backend_url, Some("http://a".to_string()));
    }
    assert_eq!(router.programs().len(), 2);
    assert_eq!(shown(&router, "B").step_count, 1);
}

#[test]
fn a_request_without_workers_is_refused() {
    let mut router = ThunderRouter::new(RoutingMode::Thunder { worker_urls: vec![] }).unwrap();
    assert_eq!(router.select_worker_url(), None);
    match router.route_chat(&parsed("{}")) {
        ChatRoute::Refused(ChatResponse::ServiceUnavailable { code, message }) => {
            assert_eq!(code, "no_workers");
            assert_eq!(message, "Thunder mode has no worker URLs configured");
        }
        other => panic!("{other:?}"),
    }
    assert_eq!(router.programs().len(), 0);
}

#[test]
fn an_answer_makes_the_program_act() {
    let mut router = router();
    router.route_chat(&parsed(r#"{"program_id":"p"}"#));
    let reply = UpstreamReply::Answered {
        status: 200,
        content_type: None,
        body: br#"{"usage":{"total_tokens":42}}"#.to_vec(),
    };
    let response = router.answer_chat("p", forward_non_streaming_chat("http://a", reply));
    assert!(matches!(response, ChatResponse::Upstream { status: 200, .. }));
    assert_eq!(shown(&router, "p").status, ProgramStatus::Acting);
    assert_eq!(shown(&router, "p").total_tokens, 42);
    let failed = UpstreamReply::Unreachable { reason: String::new() };
    router.route_chat(&parsed(r#"{"program_id":"p"}"#));
    let response = router.answer_chat("p", forward_non_streaming_chat("http://a", failed));
    assert!(matches!(response, ChatResponse::ServiceUnavailable { .. }));
    assert_eq!(shown(&router, "p").status, ProgramStatus::Acting);
    assert_eq!(shown(&router, "p").total_tokens, 42);
    assert_eq!(shown(&router, "p").step_count, 2);
}

#[test]
fn unknown_programs_are_passed_over() {
    let mut router = router();
    router.complete_program("p", Some(1));
    router.stream_tokens("p", 1);
    router.observe_events("p", &[StreamEvent::Progress(1), StreamEvent::Finish(None)]);
    assert_eq!(router.programs().len(), 0);
}

#[test]
fn a_streams_tokens_reach_its_program() {
    let mut router = router();
    match router.route_chat(&parsed(r#"{"program_id":"p","stream":true}"#)) {
        ChatRoute::Forward { stream, payload, .. } => {
            assert!(stream);
            assert_eq!(payload, parsed(r#"{"stream":true}"#));
        }
        other => panic!("{other:?}"),
    }
    let mut finisher = StreamingProgramFinisher::new(true);
    let line = format!("data: {{\"choices\":[{{\"delta\":{{\"content\":\"{}\"}}}}]}}\n", "x".repeat(100));
    let events = finisher.observe_chunk(line.as_bytes());
    router.observe_events("p", &events);
    assert_eq!(shown(&router, "p").total_tokens, 20);
    assert_eq!(shown(&router, "p").status, ProgramStatus::Reasoning);
    let events = finisher.finish();
    router.observe_events("p", &events);
    assert_eq!(shown(&router, "p").total_tokens, 25);
    assert_eq!(shown(&router, "p").status, ProgramStatus::Acting);
    router.stream_tokens("p", u64::MAX);
    assert_eq!(shown(&router, "p").total_tokens, u64::MAX);
}

#[test]
fn a_reported_total_replaces_streamed_tokens() {
    let mut router = router();
    router.prepare_program("p", &parsed("{}"), "http://b");
    assert_eq!(shown(&router, "p").context_len, 2);
    assert_eq!(shown(&router, "p").backend_url, Some("http://b".to_string()));
    let mut finisher = StreamingProgramFinisher::new(true);
    let mut events = finisher.observe_text(
        "data: {\"choices\":[{\"delta\":{\"content\":\"abc\"}}],\"usage\":{\"total_tokens\":77}}\n",
    );
    events.extend(finisher.finish());
    router.observe_events("p", &events);
    assert_eq!(shown(&router, "p").total_tokens, 77);
    assert_eq!(shown(&router, "p").status, ProgramStatus::Acting);
}

#[test]
fn a_full_count_is_left_alone() {
    let mut router = router();
    router.prepare_program_of("p", 3, "http://a");
    let mut held = thunder::program::Program::new("p");
    held.step_count = u64::MAX;
    router.programs_mut().exchange("p", &mut held);
    assert!(!router.try_prepare_program_of("p", 9, "http://b"));
    assert!(router.try_route_chat(&parsed(r#"{"program_id":"p"}"#)).is_none());
    assert_eq!(shown(&router, "p").step_count, u64::MAX);
    assert_eq!(shown(&router, "p").context_len, 0);
    assert!(router.try_prepare_program_of("q", 9, "http://b"));
    assert_eq!(shown(&router, "q").context_len, 9);
}

#[test]
fn streaming_is_asked_for_by_a_true_value_only() {
    let mut router = router();
    for (text, expected) in [
        (r#"{"stream":true}"#, true),
        (r#"{"stream":false}"#, false),
        (r#"{"stream":1}"#, false),
        ("{}", false),
    ] {
        match router.route_chat(&parsed(text)) {
            ChatRoute::Forward { stream, .. } => assert_eq!(stream, expected),
            other => panic!("{other:?}"),
        }
    }
}
