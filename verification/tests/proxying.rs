use serde_json::Value;
use thunder::proxy::{
    chat_completions_url, forward_non_streaming_chat, forward_streaming_chat, remove_program_id,
    upstream_payload, ChatResponse, StreamReply, StreamedChat, UpstreamReply,
};
use thunder::stream::StreamEvent;

fn parsed(text: &str) -> Value {
    text.parse().unwrap()
}

fn stripped(text: &str) -> Value {
    let mut value = parsed(text);
    remove_program_id(&mut value);
    let again = upstream_payload(&value).unwrap();
    assert_eq!(again, value);
    assert_eq!(upstream_payload(&parsed(text)).unwrap(), value);
    value
}

#[test]
fn the_address_for_chat_completions() {
    assert_eq!(chat_completions_url("http://w:1"), "http://w:1/v1/chat/completions");
    assert_eq!(chat_completions_url("http://w:1/"), "http://w:1/v1/chat/completions");
    assert_eq!(chat_completions_url("http://w:1/x//"), "http://w:1/x/v1/chat/completions");
}

#[test]
fn the_program_id_is_not_sent_on() {
    assert_eq!(
        stripped(r#"{"model":"m","program_id":"p","stream":true}"#),
        parsed(r#"{"model":"m","stream":true}"#)
    );
    assert_eq!(
        stripped(r#"{"model":"m","extra_body":{"program_id":"p","top_k":1}}"#),
        parsed(r#"{"model":"m","extra_body":{"top_k":1}}"#)
    );
    assert_eq!(
        stripped(r#"{"program_id":1,"extra_body":{"program_id":"p"}}"#),
        parsed("{}")
    );
}

#[test]
fn an_empty_extra_body_is_not_sent_on() {
    assert_eq!(stripped(r#"{"extra_body":{}}"#), parsed("{}"));
}

#[test]
fn everything_else_is_sent_on() {
    for text in [
        r#"{"model":"m","messages":[{"role":"user","content":"program_id"}],"n":-1.5,"x":null}"#,
        r#"{"extra_body":[{"program_id":"p"}]}"#,
        r#"{"extra_body":"program_id"}"#,
        r#"{"extra_body":{"deeper":{"program_id":"p"}}}"#,
        r#"["program_id"]"#,
        "3",
        "null",
    ] {
        assert_eq!(stripped(text), parsed(text), "{text}");
    }
}

fn answered(status: u16, content_type: Option<&str>, body: &str) -> UpstreamReply {
    UpstreamReply::Answered {
        status,
        content_type: content_type.map(|t| t.as_bytes().to_vec()),
        body: body.as_bytes().to_vec(),
    }
}

#[test]
fn an_answer_is_handed_on() {
    let body = r#"{"usage":{"total_tokens":12}}"#;
    let forwarded = forward_non_streaming_chat("http://w", answered(200, Some("text/x"), body));
    match forwarded.response {
        ChatResponse::Upstream { status, content_type, body: relayed } => {
            assert_eq!(status, 200);
            assert_eq!(content_type, b"text/x");
            assert_eq!(relayed, body.as_bytes());
        }
        other => panic!("{other:?}"),
    }
    assert_eq!(forwarded.usage.unwrap().total_tokens, Some(12));
}

#[test]
fn an_answer_without_a_type_is_json() {
    let forwarded = forward_non_streaming_chat("http://w", answered(404, None, "oops"));
    match forwarded.response {
        ChatResponse::Upstream { status, content_type, body } => {
            assert_eq!(status, 404);
            assert_eq!(content_type, b"application/json");
            assert_eq!(body, b"oops");
        }
        other => panic!("{other:?}"),
    }
    assert_eq!(forwarded.usage, None);
}

#[test]
fn a_status_that_is_none_becomes_an_error() {
    for (given, relayed) in [(99u16, 500u16), (100, 100), (999, 999), (1000, 500), (0, 500)] {
        match forward_non_streaming_chat("w", answered(given, None, "")).response {
            ChatResponse::Upstream { status, .. } => assert_eq!(status, relayed),
            other => panic!("{other:?}"),
        }
    }
}

fn reason() -> String {
    "why".to_string()
}

#[test]
fn failures_are_answered_with_errors() {
    let refused = forward_non_streaming_chat("w/", UpstreamReply::Unserializable { reason: reason() });
    match refused.response {
        ChatResponse::BadRequest { code, message } => {
            assert_eq!(code, "validation_error");
            assert_eq!(message, "Failed to serialize chat completion body: why");
        }
        other => panic!("{other:?}"),
    }
    assert_eq!(refused.usage, None);
    let unreachable = forward_non_streaming_chat("w/", UpstreamReply::Unreachable { reason: reason() });
    match unreachable.response {
        ChatResponse::ServiceUnavailable { code, message } => {
            assert_eq!(code, "upstream_error");
            assert_eq!(message, "Failed to contact upstream w/v1/chat/completions: why");
        }
        other => panic!("{other:?}"),
    }
    let unreadable = forward_non_streaming_chat("w/", UpstreamReply::Unreadable { reason: reason() });
    match unreadable.response {
        ChatResponse::ServiceUnavailable { code, message } => {
            assert_eq!(code, "upstream_error");
            assert_eq!(message, "Failed to read upstream body from w/v1/chat/completions: why");
        }
        other => panic!("{other:?}"),
    }
}

#[test]
fn a_stream_is_followed() {
    let opened = StreamReply::Opened { status: 200, content_type: None };
    match forward_streaming_chat("w", opened, true) {
        StreamedChat::Streaming { status, content_type, mut finisher } => {
            assert_eq!(status, 200);
            assert_eq!(content_type, b"text/event-stream");
            assert_eq!(finisher.finish(), vec![StreamEvent::Finish(None)]);
        }
        other => panic!("{other:?}"),
    }
    let typed = StreamReply::Opened { status: 7, content_type: Some(b"a/b".to_vec()) };
    match forward_streaming_chat("w", typed, false) {
        StreamedChat::Streaming { status, content_type, mut finisher } => {
            assert_eq!(status, 500);
            assert_eq!(content_type, b"a/b");
            assert_eq!(finisher.finish(), vec![]);
        }
        other => panic!("{other:?}"),
    }
}

#[test]
fn a_stream_that_never_began_is_finished() {
    match forward_streaming_chat("w", StreamReply::Unreachable { reason: reason() }, true) {
        StreamedChat::Failed { response, events } => {
            assert_eq!(events, vec![StreamEvent::Finish(None)]);
            match response {
                ChatResponse::ServiceUnavailable { code, message } => {
                    assert_eq!(code, "upstream_error");
                    assert_eq!(message, "Failed to contact upstream w/v1/chat/completions: why");
                }
                other => panic!("{other:?}"),
            }
        }
        other => panic!("{other:?}"),
    }
    match forward_streaming_chat("w", StreamReply::Unserializable { reason: reason() }, false) {
        StreamedChat::Failed { response, events } => {
            assert_eq!(events, vec![]);
            assert!(matches!(response, ChatResponse::BadRequest { .. }));
        }
        other => panic!("{other:?}"),
    }
}
