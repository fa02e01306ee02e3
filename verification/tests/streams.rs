use thunder::stream::{sse_data, StreamEvent, StreamingProgramFinisher, PROGRESS_STEP};
use thunder::text::chars_of;
use thunder::usage::UsageTokens;

fn delta(content: &str) -> String {
    format!("data: {{\"choices\":[{{\"delta\":{{\"content\":\"{content}\"}}}}]}}\n\n")
}

fn usage(total: u64) -> Option<UsageTokens> {
    Some(UsageTokens {
        prompt_tokens: None,
        completion_tokens: None,
        total_tokens: Some(total),
        cached_tokens: None,
    })
}

fn data(line: &str) -> Option<String> {
    sse_data(&chars_of(line))
}

fn reported(events: &[StreamEvent]) -> u64 {
    let mut sum: u64 = 0;
    for event in events {
        if let StreamEvent::Progress(tokens) = event {
            sum += tokens;
        }
    }
    sum
}

#[test]
fn data_lines() {
    assert_eq!(data("data: {}"), Some("{}".to_string()));
    assert_eq!(data("data:{}\r"), Some("{}".to_string()));
    assert_eq!(data("data:  x y \r\r"), Some("x y".to_string()));
    assert_eq!(data("data:"), None);
    assert_eq!(data("data: \r"), None);
    assert_eq!(data("data: [DONE]"), None);
    assert_eq!(data("data: [DONE] "), None);
    assert_eq!(data("data: [DONE]x"), Some("[DONE]x".to_string()));
    assert_eq!(data(" data: x"), None);
    assert_eq!(data("event: x"), None);
    assert_eq!(data("dat"), None);
    assert_eq!(data(""), None);
}

#[test]
fn the_first_content_reports_a_first_token() {
    let mut stream = StreamingProgramFinisher::new(true);
    assert_eq!(stream.observe_chunk(delta("hi").as_bytes()), vec![StreamEvent::FirstToken]);
    assert_eq!(stream.observe_chunk(delta("there").as_bytes()), vec![]);
    assert_eq!(
        stream.finish(),
        vec![StreamEvent::Progress(3), StreamEvent::Finish(None)]
    );
    assert_eq!(stream.finish(), vec![]);
}

#[test]
fn progress_is_reported_in_steps() {
    let mut stream = StreamingProgramFinisher::new(true);
    let mut events: Vec<StreamEvent> = Vec::new();
    let long = "x".repeat(170);
    stream.observe_content_delta(&long, &mut events);
    assert_eq!(
        events,
        vec![
            StreamEvent::FirstToken,
            StreamEvent::Progress(PROGRESS_STEP),
            StreamEvent::Progress(PROGRESS_STEP),
        ]
    );
    events.clear();
    stream.observe_content_delta("", &mut events);
    assert_eq!(events, vec![]);
    assert_eq!(
        stream.finish(),
        vec![StreamEvent::Progress(4), StreamEvent::Finish(None)]
    );
}

#[test]
fn a_piece_of_content_counts_a_token_for_four_characters() {
    for (content, tokens) in [("", 1u64), ("a", 1), ("abcd", 1), ("abcde", 2), ("éééé", 1), ("abcdefghi", 3)] {
        let mut stream = StreamingProgramFinisher::new(false);
        let mut events: Vec<StreamEvent> = Vec::new();
        stream.observe_content_delta(content, &mut events);
        assert_eq!(stream.finish(), vec![StreamEvent::Progress(tokens)], "{content}");
    }
}

#[test]
fn exactly_one_step_leaves_nothing_to_flush() {
    let mut stream = StreamingProgramFinisher::new(true);
    let events = stream.observe_chunk(delta(&"x".repeat(80)).as_bytes());
    assert_eq!(events, vec![StreamEvent::FirstToken, StreamEvent::Progress(20)]);
    assert_eq!(stream.finish(), vec![StreamEvent::Finish(None)]);
}

#[test]
fn a_known_total_makes_the_last_report_needless() {
    let mut stream = StreamingProgramFinisher::new(true);
    stream.observe_chunk(delta("hello").as_bytes());
    let events = stream.observe_chunk(b"data: {\"choices\":[],\"usage\":{\"total_tokens\":9}}\n");
    assert_eq!(events, vec![]);
    assert_eq!(stream.finish(), vec![StreamEvent::Finish(usage(9))]);
}

#[test]
fn the_last_usage_counts() {
    let mut stream = StreamingProgramFinisher::new(true);
    stream.observe_text("data: {\"usage\":{\"total_tokens\":9}}\ndata: {\"usage\":{\"total_tokens\":11}}\ndata: {\"id\":1}\n");
    assert_eq!(stream.finish(), vec![StreamEvent::Finish(usage(11))]);
    let mut later_null = StreamingProgramFinisher::new(true);
    later_null.observe_text("data: {\"usage\":{\"total_tokens\":9}}\ndata: {\"usage\":null}\n");
    assert_eq!(
        later_null.finish(),
        vec![StreamEvent::Finish(Some(UsageTokens::default()))]
    );
}

#[test]
fn chunks_may_break_anywhere() {
    let whole = format!("{}: ping\r\n{}data: [DONE]\r\n\r\n", delta(&"é".repeat(100)), delta("tail中"));
    let bytes = whole.as_bytes();
    let mut at_once = StreamingProgramFinisher::new(true);
    let mut expected = at_once.observe_text(&whole);
    expected.extend(at_once.finish());
    let mut by_line = StreamingProgramFinisher::new(true);
    let mut events: Vec<StreamEvent> = Vec::new();
    for c in whole.chars() {
        events.extend(by_line.observe_chunk(c.to_string().as_bytes()));
    }
    events.extend(by_line.finish());
    assert_eq!(events, expected);
    let mut in_one = StreamingProgramFinisher::new(true);
    let mut all = in_one.observe_chunk(bytes);
    all.extend(in_one.finish());
    assert_eq!(all, expected);
    assert_eq!(reported(&all), 27);
}

#[test]
fn a_line_is_read_when_it_is_complete() {
    let mut stream = StreamingProgramFinisher::new(true);
    let text = delta("hi");
    let line = text.trim_end();
    assert_eq!(stream.observe_text(line), vec![]);
    assert_eq!(stream.observe_text("\n"), vec![StreamEvent::FirstToken]);
}

#[test]
fn other_lines_tell_nothing() {
    let mut stream = StreamingProgramFinisher::new(true);
    let events = stream.observe_text(
        "event: x\ndata: not json\ndata: {\"choices\":3}\ndata: {\"choices\":[{\"delta\":{}},{\"delta\":{\"content\":null}},4]}\ndata: [1]\n",
    );
    assert_eq!(events, vec![]);
    assert_eq!(stream.finish(), vec![StreamEvent::Finish(None)]);
}

#[test]
fn malformed_bytes_do_not_stop_a_stream() {
    let mut stream = StreamingProgramFinisher::new(true);
    stream.observe_chunk(b"data: \xff\xfe\n");
    let events = stream.observe_chunk(b"data: {\"choices\":[{\"delta\":{\"content\":\"\xff\"}}]}\n");
    assert_eq!(events, vec![StreamEvent::FirstToken]);
    assert_eq!(
        stream.finish(),
        vec![StreamEvent::Progress(1), StreamEvent::Finish(None)]
    );
}

#[test]
fn all_choices_of_a_chunk_count() {
    let mut stream = StreamingProgramFinisher::new(false);
    let events = stream.observe_text(
        "data: {\"choices\":[{\"delta\":{\"content\":\"abcdefgh\"}},{\"delta\":{}},{\"delta\":{\"content\":\"x\"}}]}\n",
    );
    assert_eq!(events, vec![StreamEvent::FirstToken]);
    assert_eq!(stream.finish(), vec![StreamEvent::Progress(3)]);
    assert_eq!(stream.finish(), vec![]);
}

#[test]
fn a_payload_may_be_observed_by_itself() {
    let mut stream = StreamingProgramFinisher::new(true);
    let mut events: Vec<StreamEvent> = Vec::new();
    let payload = "{\"choices\":[{\"delta\":{\"content\":\"abcdefgh\"}}],\"usage\":{\"total_tokens\":4}}";
    stream.observe_payload(&payload.parse().unwrap(), &mut events);
    assert_eq!(events, vec![StreamEvent::FirstToken]);
    assert_eq!(stream.finish(), vec![StreamEvent::Finish(usage(4))]);
}
