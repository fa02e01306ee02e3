use std::sync::Arc;
use thunder::program::{Program, ProgramSnapshot, ProgramState, ProgramStatus};
use thunder::registry::{snapshot_programs, ProgramRegistry};

fn text(s: &str) -> Option<String> {
    Some(s.to_string())
}

#[test]
fn a_new_program_has_sent_nothing() {
    let program = Program::new("p");
    assert_eq!(program.program_id, "p");
    assert_eq!(program.status, ProgramStatus::Reasoning);
    assert_eq!(program.state, ProgramState::Active);
    assert_eq!(program.context_len, 0);
    assert_eq!(program.total_tokens, 0);
    assert_eq!(program.step_count, 0);
    assert_eq!(program.backend_url, None);
    assert_eq!(program.origin_backend, None);
    assert!(program.waiting_notify.is_none());
    assert!(!program.marked_for_pause);
    assert_eq!(program.paused_at_ms, None);
}

#[test]
fn the_first_backend_is_kept() {
    let mut program = Program::new("p");
    program.before_request(10, "http://a");
    assert_eq!(program.backend_url, text("http://a"));
    program.after_request(Some(50));
    assert_eq!(program.status, ProgramStatus::Acting);
    assert_eq!(program.total_tokens, 50);
    program.before_request(20, "http://b");
    assert_eq!(program.backend_url, text("http://a"));
    assert_eq!(program.step_count, 2);
    assert_eq!(program.context_len, 20);
    assert_eq!(program.status, ProgramStatus::Reasoning);
}

#[test]
fn an_answer_without_a_total_keeps_the_tokens() {
    let mut program = Program::new("p");
    program.after_request(Some(50));
    program.after_request(None);
    assert_eq!(program.total_tokens, 50);
    program.after_request(Some(0));
    assert_eq!(program.total_tokens, 0);
}

#[test]
fn streamed_tokens_add_up_to_the_limit() {
    let mut program = Program::new("p");
    program.update_streaming_tokens(20);
    program.update_streaming_tokens(7);
    assert_eq!(program.total_tokens, 27);
    program.update_streaming_tokens(u64::MAX);
    assert_eq!(program.total_tokens, u64::MAX);
}

#[test]
fn a_paused_program_waits_and_comes_back() {
    let mut program = Program::new("p");
    program.before_request(10, "http://a");
    let notify = program.pause(text("http://a"));
    assert_eq!(program.state, ProgramState::Paused);
    assert_eq!(program.backend_url, None);
    assert_eq!(program.origin_backend, text("http://a"));
    assert!(program.paused_at_ms.is_some());
    program.before_waiting_request(30);
    assert_eq!(program.state, ProgramState::Paused);
    assert_eq!(program.step_count, 2);
    assert_eq!(program.context_len, 30);
    let handed = program.resume("http://b").unwrap();
    assert!(Arc::ptr_eq(&handed, &notify));
    assert_eq!(program.state, ProgramState::Active);
    assert_eq!(program.backend_url, text("http://b"));
    assert_eq!(program.origin_backend, None);
    assert_eq!(program.paused_at_ms, None);
    assert!(program.resume("http://c").is_none());
}

#[test]
fn a_pause_is_stamped_with_the_time() {
    let before = std::time::SystemTime::now()
        .duration_since(std::time::SystemTime::UNIX_EPOCH)
        .unwrap()
        .as_millis();
    let mut program = Program::new("p");
    program.pause(None);
    let at = program.paused_at_ms.unwrap();
    assert!(at >= before);
    assert!(at < before + 20_000);
    program.pause_at(None, Some(7));
    assert_eq!(program.paused_at_ms, Some(7));
}

#[test]
fn a_snapshot_shows_the_program() {
    let mut program = Program::new("p");
    program.before_request(12, "http://a");
    program.after_request(Some(34));
    let shown = ProgramSnapshot::from(&program).clone();
    assert_eq!(shown.context_len, 12);
    assert_eq!(shown.total_tokens, 34);
    assert_eq!(shown.step_count, 1);
    assert_eq!(shown.status, ProgramStatus::Acting);
    assert_eq!(shown.state, ProgramState::Active);
    assert_eq!(shown.backend_url, text("http://a"));
    assert_eq!(shown.origin_backend, None);
    assert!(!shown.marked_for_pause);
    assert_eq!(shown.paused_at_ms, None);
    let copy = program.clone();
    assert_eq!(copy.program_id, "p");
    assert_eq!(copy.total_tokens, 34);
}

#[test]
fn a_registry_keeps_the_first_program_under_an_id() {
    let mut programs = ProgramRegistry::new();
    assert_eq!(programs.len(), 0);
    let mut first = Program::new("a");
    first.total_tokens = 5;
    programs.insert_if_absent("a", first);
    programs.insert_if_absent("a", Program::new("a"));
    programs.insert_if_absent("b", Program::new("b"));
    assert_eq!(programs.len(), 2);
    let mut held = Program::new("other");
    assert!(programs.exchange("a", &mut held));
    assert_eq!(held.total_tokens, 5);
    assert!(programs.exchange("a", &mut held));
    assert_eq!(held.program_id, "other");
    assert!(!programs.exchange("c", &mut held));
    assert_eq!(held.program_id, "other");
}

#[test]
fn a_registry_lists_every_program_once() {
    let mut programs = ProgramRegistry::new();
    for i in 0..50 {
        let id = format!("p{i}");
        programs.insert_if_absent(&id, Program::new(&id));
    }
    let mut ids: Vec<String> = Vec::new();
    for (id, program) in programs.entries() {
        assert_eq!(id, program.program_id);
        ids.push(id);
    }
    ids.sort();
    ids.dedup();
    assert_eq!(ids.len(), 50);
}

#[test]
fn programs_are_shown_in_the_order_of_their_ids() {
    let mut programs = ProgramRegistry::new();
    for id in ["b", "a", "é", "ab", "A"] {
        let mut program = Program::new(id);
        program.total_tokens = id.len() as u64;
        programs.insert_if_absent(id, program);
    }
    let shown = snapshot_programs(&programs);
    let ids: Vec<&str> = shown.iter().map(|entry| entry.0.as_str()).collect();
    assert_eq!(ids, vec!["A", "a", "ab", "b", "é"]);
    assert_eq!(shown[2].1.total_tokens, 2);
    assert!(snapshot_programs(&ProgramRegistry::new()).is_empty());
}
