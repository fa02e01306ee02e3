use serde_json::Value;
use std::sync::Arc;
use std::time::Duration;
use thunder::backend::{ActingTokens, BackendState, BUFFER_PER_PROGRAM};
use thunder::metrics::{
    AnyMetricsClient, CacheConfig, MetricsClient, ServerInfoReply, SkyrlMetricsClient,
    VllmMetricsClient,
};
use thunder::program::{Program, ProgramState, ProgramStatus};
use thunder::registry::ProgramRegistry;
use thunder::scheduler::{candidates_among, ResumeCandidate, SchedulerState};

fn reply(tokens: u64) -> ServerInfoReply {
    ServerInfoReply::Answered {
        status: 200,
        cache_config: Some(CacheConfig {
            block_size: 0,
            num_gpu_blocks: 0,
            total_kv_cache_tokens: tokens,
        }),
    }
}

fn backend(url: &str, tokens: u64) -> BackendState<VllmMetricsClient> {
    let mut client = VllmMetricsClient::new(url);
    client.fetch_cache_config(reply(tokens));
    BackendState::with_options(url, client, 1.0f64.to_bits(), false)
}

fn bound(id: &str, url: &str, status: ProgramStatus, tokens: u64) -> Program {
    let mut program = Program::new(id);
    program.backend_url = Some(url.to_string());
    program.status = status;
    program.total_tokens = tokens;
    program
}

fn paused(id: &str, steps: u64, status: ProgramStatus, tokens: u64) -> Program {
    let mut program = Program::new(id);
    program.step_count = steps;
    program.status = status;
    program.total_tokens = tokens;
    program.pause_at(Some("http://a".to_string()), Some(1));
    program
}

fn registry(programs: Vec<Program>) -> ProgramRegistry {
    let mut registry = ProgramRegistry::new();
    for program in programs {
        let id = program.program_id.clone();
        registry.insert_if_absent(&id, program);
    }
    registry
}

fn found(registry: &ProgramRegistry, id: &str) -> Program {
    for (key, program) in registry.entries() {
        if key == id {
            return program;
        }
    }
    panic!("no program {id}")
}

fn url_of(registry: &ProgramRegistry, id: &str) -> Option<String> {
    found(registry, id).backend_url
}

#[test]
fn tokens_are_added_up_by_backend_and_status() {
    let a = backend("http://a", 10_000);
    let programs = registry(vec![
        bound("1", "http://a", ProgramStatus::Reasoning, 100),
        bound("2", "http://a", ProgramStatus::Reasoning, 20),
        bound("3", "http://a", ProgramStatus::Acting, 7),
        bound("4", "http://b", ProgramStatus::Reasoning, 1000),
        Program::new("5"),
    ]);
    assert_eq!(a.url(), "http://a");
    assert_eq!(a.reasoning_program_tokens(&programs), 120);
    assert_eq!(a.acting_program_tokens(&programs), 7);
    assert_eq!(a.active_program_count(&programs), 3);
    assert_eq!(a.checked_program_tokens(&programs, ProgramStatus::Acting), Some(7));
    let load = a.active_program_tokens(&programs);
    assert_eq!(load.reasoning, 120);
    assert!(matches!(load.acting, ActingTokens::Whole(7)));
    let decaying = a.active_program_tokens_with_decay(&programs);
    assert_eq!(decaying.reasoning, 120);
    assert!(matches!(decaying.acting, ActingTokens::Whole(7)));
    assert_eq!(a.remaining_capacity(&programs, 127), Some(10_000 - 127 - 300));
    assert_eq!(a.remaining_capacity_with_decay(&programs, 100), Some(9_600));
    assert_eq!(f64::from_bits(a.tool_coefficient_bits()), 1.0);
}

#[test]
fn acting_programs_are_listed_with_their_ages() {
    let mut client = VllmMetricsClient::new("http://a");
    client.fetch_cache_config(reply(1000));
    let decaying = BackendState::with_options("http://a", client, 0.5f64.to_bits(), true);
    let mut old = bound("1", "http://a", ProgramStatus::Acting, 100);
    old.acting_since_ms = Some(40_000);
    let mut ahead = bound("2", "http://a", ProgramStatus::Acting, 30);
    ahead.acting_since_ms = Some(200_000);
    let programs = registry(vec![
        old,
        ahead,
        bound("3", "http://a", ProgramStatus::Acting, 5),
        bound("4", "http://a", ProgramStatus::Reasoning, 9),
    ]);
    let load = decaying.active_program_tokens_with_decay_at(&programs, 100_000);
    assert_eq!(load.reasoning, 9);
    match load.acting {
        ActingTokens::Aged(mut ages) => {
            ages.sort();
            assert_eq!(ages, vec![(5, 0), (30, 0), (100, 60_000)]);
        }
        other => panic!("{other:?}"),
    }
    let (plain, aged) = decaying.checked_program_loads(&programs, 100_000).unwrap();
    assert!(matches!(plain.acting, ActingTokens::Whole(135)));
    assert!(matches!(aged.acting, ActingTokens::Aged(_)));
}

#[test]
fn sums_that_do_not_fit_are_told() {
    let a = backend("http://a", 10);
    let programs = registry(vec![
        bound("1", "http://a", ProgramStatus::Acting, u64::MAX),
        bound("2", "http://a", ProgramStatus::Acting, 1),
    ]);
    assert_eq!(a.checked_program_tokens(&programs, ProgramStatus::Acting), None);
    assert_eq!(a.checked_program_tokens(&programs, ProgramStatus::Reasoning), Some(0));
    assert!(a.checked_program_loads(&programs, 0).is_none());
}

#[test]
fn room_may_be_negative_or_unknown() {
    let small = backend("http://a", 50);
    let programs = registry(vec![bound("1", "http://a", ProgramStatus::Acting, 500)]);
    assert_eq!(small.remaining_capacity(&programs, 500), Some(50 - 500 - 100));
    assert_eq!(small.checked_remaining_capacity(&programs, 500), Some(Some(-550)));
    let unknown =
        BackendState::with_options("http://a", VllmMetricsClient::new("http://a"), 0, false);
    assert_eq!(unknown.remaining_capacity(&programs, 500), None);
    assert_eq!(unknown.checked_remaining_capacity(&programs, 500), Some(None));
    assert_eq!(unknown.cache_config(), None);
    assert!(!unknown.healthy());
    let huge = backend("http://a", u64::MAX);
    assert_eq!(huge.remaining_capacity(&programs, 0), Some(-101));
    let most = backend("http://b", i64::MAX as u64);
    assert_eq!(most.checked_remaining_capacity(&programs, u64::MAX), None);
    assert_eq!(most.checked_remaining_capacity(&programs, 0), Some(Some(i64::MAX)));
}

#[test]
fn a_backend_is_shown() {
    let mut a = backend("http://a", 10_000);
    a.metrics_mut().fetch_cache_config(reply(1000));
    let programs = registry(vec![
        bound("1", "http://a", ProgramStatus::Reasoning, 100),
        bound("2", "http://a", ProgramStatus::Acting, 40),
    ]);
    let shown = a.snapshot(&programs, 140, 2000, Value::from(1.0));
    let expected: Value = r#"{
        "url": "http://a",
        "active_program_tokens": 140,
        "active_program_tokens_with_decay": 2000,
        "reasoning_program_tokens": 100,
        "acting_program_tokens": 40,
        "active_program_count": 2,
        "remaining_capacity": 660,
        "remaining_capacity_with_decay": -1200,
        "buffer_per_program": 100,
        "tool_coefficient": 1.0,
        "use_acting_token_decay": false,
        "metrics": {"url": "http://a", "healthy": true, "cache_config": {"block_size": 0,
            "num_gpu_blocks": 0, "total_kv_cache_tokens": 1000, "total_tokens_capacity": 1000}}
    }"#
    .parse()
    .unwrap();
    assert_eq!(shown, expected);
    let unknown =
        BackendState::with_options("http://c", VllmMetricsClient::new("http://c"), 0, true);
    let shown = unknown.snapshot(&programs, 0, 0, Value::Null);
    assert_eq!(shown["remaining_capacity"], Value::Null);
    assert_eq!(shown["use_acting_token_decay"], Value::Bool(true));
}

#[test]
fn a_candidate_needs_its_tokens_and_a_buffer() {
    let needed = |total_tokens: u64| {
        ResumeCandidate { program_id: String::new(), total_tokens, priority: 0 }.required_tokens()
    };
    assert_eq!(needed(0), 100);
    assert_eq!(needed(900), 1000);
    assert_eq!(needed(u64::MAX), -1);
    assert_eq!(BUFFER_PER_PROGRAM, 100);
}

#[test]
fn paused_programs_are_ranked() {
    let mut terminated = Program::new("t");
    terminated.state = ProgramState::Terminated;
    let entries = vec![
        ("new".to_string(), paused("new", 1, ProgramStatus::Reasoning, 5)),
        ("active".to_string(), Program::new("active")),
        ("reasoning".to_string(), paused("reasoning", 2, ProgramStatus::Reasoning, 6)),
        ("acting".to_string(), paused("acting", 2, ProgramStatus::Acting, 7)),
        ("new acting".to_string(), paused("new acting", 1, ProgramStatus::Acting, 8)),
        ("t".to_string(), terminated),
    ];
    let candidates = candidates_among(&entries);
    let seen: Vec<(&str, u64, u8)> = candidates
        .iter()
        .map(|c| (c.program_id.as_str(), c.total_tokens, c.priority))
        .collect();
    assert_eq!(
        seen,
        vec![("new", 5, 1), ("reasoning", 6, 0), ("acting", 7, 2), ("new acting", 8, 1)]
    );
}

fn scheduler(backends: Vec<BackendState<VllmMetricsClient>>) -> SchedulerState<VllmMetricsClient> {
    SchedulerState::new(backends, Duration::from_secs(5))
}

#[test]
fn freed_room_resumes_a_paused_program() {
    let full = scheduler(vec![backend("http://a", 1000)]);
    let mut programs = registry(vec![
        bound("busy", "http://a", ProgramStatus::Reasoning, 500),
        paused("waiting", 1, ProgramStatus::Reasoning, 400),
    ]);
    full.greedy_resume(&mut programs, &vec![500]);
    assert_eq!(found(&programs, "waiting").state, ProgramState::Paused);
    let freed = scheduler(vec![backend("http://a", 1100)]);
    freed.greedy_resume(&mut programs, &vec![500]);
    let resumed = found(&programs, "waiting");
    assert_eq!(resumed.state, ProgramState::Active);
    assert_eq!(resumed.backend_url, Some("http://a".to_string()));
    assert_eq!(resumed.origin_backend, None);
    assert_eq!(resumed.paused_at_ms, None);
    assert!(resumed.waiting_notify.is_none());
    assert_eq!(found(&programs, "busy").backend_url, Some("http://a".to_string()));
    assert_eq!(freed.interval(), Duration::from_secs(5));
}

#[test]
fn ranks_decide_who_is_resumed() {
    let one = scheduler(vec![backend("http://a", 600)]);
    let mut programs = registry(vec![
        paused("acting", 2, ProgramStatus::Acting, 10),
        paused("new", 1, ProgramStatus::Reasoning, 150),
        paused("reasoning", 2, ProgramStatus::Reasoning, 200),
    ]);
    one.greedy_resume(&mut programs, &vec![0]);
    assert_eq!(found(&programs, "reasoning").state, ProgramState::Active);
    assert_eq!(found(&programs, "new").state, ProgramState::Active);
    assert_eq!(found(&programs, "acting").state, ProgramState::Paused);
}

#[test]
fn within_a_rank_small_programs_are_chosen_first() {
    let one = scheduler(vec![backend("http://a", 500)]);
    let mut programs = registry(vec![
        paused("large", 2, ProgramStatus::Reasoning, 300),
        paused("small", 2, ProgramStatus::Reasoning, 50),
        paused("middle", 2, ProgramStatus::Reasoning, 120),
    ]);
    one.greedy_resume(&mut programs, &vec![0]);
    assert_eq!(found(&programs, "small").state, ProgramState::Active);
    assert_eq!(found(&programs, "middle").state, ProgramState::Active);
    assert_eq!(found(&programs, "large").state, ProgramState::Paused);
}

#[test]
fn a_program_goes_to_the_backend_that_it_fits_best() {
    for urls in [["http://big", "http://small"], ["http://small", "http://big"]] {
        let backends = urls
            .iter()
            .map(|url| backend(url, if *url == "http://big" { 1000 } else { 500 }))
            .collect();
        let two = scheduler(backends);
        let mut program = Program::new("p");
        program.step_count = 2;
        program.total_tokens = 300;
        program.pause(None);
        let mut programs = registry(vec![program]);
        two.greedy_resume(&mut programs, &vec![0, 0]);
        assert_eq!(found(&programs, "p").state, ProgramState::Active);
        assert_eq!(url_of(&programs, "p"), Some("http://small".to_string()));
    }
}

#[test]
fn large_programs_are_placed_first_each_where_it_fits_best() {
    let two = scheduler(vec![backend("http://a", 600), backend("http://b", 1000)]);
    let mut programs = registry(vec![
        paused("large", 2, ProgramStatus::Reasoning, 600),
        paused("middle", 2, ProgramStatus::Reasoning, 350),
        paused("small", 2, ProgramStatus::Reasoning, 150),
    ]);
    two.greedy_resume(&mut programs, &vec![0, 0]);
    assert_eq!(url_of(&programs, "large"), Some("http://b".to_string()));
    assert_eq!(url_of(&programs, "middle"), Some("http://a".to_string()));
    assert_eq!(url_of(&programs, "small"), Some("http://b".to_string()));
}

#[test]
fn the_room_left_decides_where_the_next_one_fits_best() {
    let two = scheduler(vec![backend("http://a", 900), backend("http://b", 1000)]);
    let mut programs = registry(vec![
        paused("first", 2, ProgramStatus::Reasoning, 500),
        paused("second", 2, ProgramStatus::Reasoning, 200),
        paused("third", 2, ProgramStatus::Reasoning, 100),
    ]);
    two.greedy_resume(&mut programs, &vec![0, 0]);
    assert_eq!(url_of(&programs, "first"), Some("http://a".to_string()));
    assert_eq!(url_of(&programs, "second"), Some("http://a".to_string()));
    assert_eq!(url_of(&programs, "third"), Some("http://b".to_string()));
}

#[test]
fn nothing_that_fits_one_backend_waits() {
    let one = scheduler(vec![backend("http://a", 2000)]);
    let a = backend("http://a", 2000);
    let mut all: Vec<Program> = vec![bound("busy", "http://a", ProgramStatus::Acting, 130)];
    for i in 0..9u64 {
        let status = if i % 2 == 0 { ProgramStatus::Reasoning } else { ProgramStatus::Acting };
        all.push(paused(&format!("p{i}"), 1 + i % 3, status, 61 * i));
    }
    let mut programs = registry(all);
    let used = |programs: &ProgramRegistry| {
        a.reasoning_program_tokens(programs) + a.acting_program_tokens(programs)
    };
    let before = vec![used(&programs)];
    one.greedy_resume(&mut programs, &before);
    let room = a.remaining_capacity(&programs, used(&programs)).unwrap();
    let mut waiting: Vec<String> = Vec::new();
    for (id, program) in programs.entries() {
        if program.state == ProgramState::Paused {
            assert!(program.total_tokens as i64 + 100 > room, "{id}");
            waiting.push(id);
        }
    }
    assert!(!waiting.is_empty());
    assert!(room >= 0);
    let again = vec![used(&programs)];
    assert!(one.greedy_release(&mut programs, &again).is_empty());
    for id in waiting {
        assert_eq!(found(&programs, &id).state, ProgramState::Paused);
    }
}

#[test]
fn a_pass_hands_back_the_handles_of_those_it_resumed() {
    let one = scheduler(vec![backend("http://a", 600)]);
    let mut silent = paused("silent", 2, ProgramStatus::Reasoning, 20);
    silent.waiting_notify = None;
    let mut programs = registry(vec![
        paused("small", 2, ProgramStatus::Reasoning, 10),
        paused("large", 2, ProgramStatus::Reasoning, 30),
        paused("too large", 2, ProgramStatus::Reasoning, 400),
        silent,
    ]);
    let small = found(&programs, "small").waiting_notify.unwrap();
    let large = found(&programs, "large").waiting_notify.unwrap();
    let handles = one.try_greedy_release(&mut programs, &vec![0]).unwrap();
    assert_eq!(handles.len(), 2);
    assert!(Arc::ptr_eq(&handles[0], &large));
    assert!(Arc::ptr_eq(&handles[1], &small));
    assert_eq!(found(&programs, "silent").state, ProgramState::Active);
    assert!(found(&programs, "too large").waiting_notify.is_some());
    assert!(one.try_greedy_release(&mut programs, &vec![]).is_none());
}

fn is_woken(notified: std::pin::Pin<&mut tokio::sync::futures::Notified<'_>>) -> bool {
    let mut context = std::task::Context::from_waker(std::task::Waker::noop());
    std::future::Future::poll(notified, &mut context).is_ready()
}

#[test]
fn resuming_wakes_what_waits() {
    let one = scheduler(vec![backend("http://a", 600)]);
    let mut programs = registry(vec![
        paused("by pass", 2, ProgramStatus::Reasoning, 10),
        paused("too large", 2, ProgramStatus::Reasoning, 900),
        paused("forced", 2, ProgramStatus::Reasoning, 900),
    ]);
    let by_pass = found(&programs, "by pass").waiting_notify.unwrap();
    let by_hand = found(&programs, "too large").waiting_notify.unwrap();
    let forced = found(&programs, "forced").waiting_notify.unwrap();
    let mut first = Box::pin(by_pass.notified());
    let mut second = Box::pin(by_hand.notified());
    let mut third = Box::pin(forced.notified());
    assert!(!is_woken(first.as_mut()) && !is_woken(second.as_mut()) && !is_woken(third.as_mut()));
    let receipts = one.try_greedy_resume(&mut programs, &vec![0]).unwrap();
    assert_eq!(receipts.len(), 1);
    assert!(Arc::ptr_eq(receipts[0].handle(), &by_pass));
    assert!(is_woken(first.as_mut()));
    assert!(!is_woken(second.as_mut()));
    let (resumed, receipt) = one.resume_program(&mut programs, "too large", "http://a");
    assert!(resumed);
    assert!(Arc::ptr_eq(receipt.unwrap().handle(), &by_hand));
    assert!(is_woken(second.as_mut()));
    assert!(!is_woken(third.as_mut()));
    let receipt = one.wait_for_resume_or_force(&mut programs, "forced", false);
    assert!(Arc::ptr_eq(receipt.unwrap().handle(), &forced));
    assert!(is_woken(third.as_mut()));
    assert!(one.wait_for_resume_or_force(&mut programs, "forced", false).is_none());
}

#[test]
fn forcing_hands_back_the_handle() {
    let one = scheduler(vec![backend("http://a", 1)]);
    let mut programs = registry(vec![paused("p", 2, ProgramStatus::Reasoning, 100)]);
    let held = found(&programs, "p").waiting_notify.unwrap();
    assert!(one.release_or_force(&mut programs, "p", true).is_none());
    assert!(one.release_or_force(&mut programs, "unknown", false).is_none());
    let handle = one.release_or_force(&mut programs, "p", false).unwrap();
    assert!(Arc::ptr_eq(&handle, &held));
    assert!(one.release_or_force(&mut programs, "p", false).is_none());
}

#[test]
fn no_backend_takes_more_than_it_holds() {
    let two = scheduler(vec![backend("http://a", 700), backend("http://b", 500)]);
    let mut all: Vec<Program> = Vec::new();
    for i in 0..10u64 {
        all.push(paused(&format!("p{i}"), 2, ProgramStatus::Reasoning, 37 * i));
    }
    let mut programs = registry(all);
    two.greedy_resume(&mut programs, &vec![0, 0]);
    let mut taken = vec![0u64, 0];
    for (_, program) in programs.entries() {
        match program.backend_url.as_deref() {
            Some("http://a") => taken[0] += program.total_tokens + BUFFER_PER_PROGRAM,
            Some("http://b") => taken[1] += program.total_tokens + BUFFER_PER_PROGRAM,
            Some(other) => panic!("{other}"),
            None => assert_eq!(program.state, ProgramState::Paused),
        }
    }
    assert!(taken[0] <= 700 && taken[1] <= 500);
    assert!(taken[0] > 0 && taken[1] > 0);
    assert_eq!(programs.len(), 10);
}

#[test]
fn a_program_that_fits_no_single_backend_waits() {
    let two = scheduler(vec![backend("http://a", 400), backend("http://b", 400)]);
    let mut programs = registry(vec![paused("large", 2, ProgramStatus::Reasoning, 500)]);
    two.greedy_resume(&mut programs, &vec![0, 0]);
    assert_eq!(found(&programs, "large").state, ProgramState::Paused);
}

#[test]
fn unhealthy_unknown_and_full_backends_get_nothing() {
    let mut sick = backend("http://a", 10_000);
    sick.metrics_mut().fetch_cache_config(ServerInfoReply::Unreachable);
    let unknown =
        BackendState::with_options("http://b", VllmMetricsClient::new("http://b"), 0, false);
    let full = backend("http://c", 199);
    let none = scheduler(vec![sick, unknown, full]);
    let mut programs = registry(vec![paused("p", 2, ProgramStatus::Reasoning, 0)]);
    none.greedy_resume(&mut programs, &vec![0, 0, 100]);
    assert_eq!(found(&programs, "p").state, ProgramState::Paused);
    assert!(none.try_greedy_resume(&mut programs, &vec![0, 0, 99]).is_some());
    assert_eq!(url_of(&programs, "p"), Some("http://c".to_string()));
}

#[test]
fn a_resumption_that_cannot_be_worked_out_is_not_made() {
    let one = scheduler(vec![backend("http://a", i64::MAX as u64)]);
    let mut programs = registry(vec![paused("p", 2, ProgramStatus::Reasoning, 0)]);
    assert!(one.try_greedy_resume(&mut programs, &vec![]).is_none());
    assert!(one.try_greedy_resume(&mut programs, &vec![u64::MAX]).is_none());
    assert_eq!(found(&programs, "p").state, ProgramState::Paused);
    assert!(one.try_greedy_resume(&mut programs, &vec![0]).is_some());
    assert_eq!(found(&programs, "p").state, ProgramState::Active);
}

#[test]
fn a_candidate_that_is_not_paused_any_more_takes_no_room() {
    let one = scheduler(vec![backend("http://a", 250)]);
    let mut programs = registry(vec![paused("p", 2, ProgramStatus::Reasoning, 100)]);
    let candidates = vec![
        ResumeCandidate { program_id: "gone".to_string(), total_tokens: 20, priority: 0 },
        ResumeCandidate { program_id: "p".to_string(), total_tokens: 0, priority: 0 },
    ];
    one.resume_candidates(&mut programs, vec![(0, 250)], candidates);
    assert_eq!(url_of(&programs, "p"), Some("http://a".to_string()));
}

#[test]
fn resuming_by_hand() {
    let one = scheduler(vec![backend("http://a", 250)]);
    let mut programs = registry(vec![
        paused("p", 2, ProgramStatus::Reasoning, 100),
        Program::new("active"),
    ]);
    let held = found(&programs, "p").waiting_notify.unwrap();
    assert!(!one.resume_program(&mut programs, "unknown", "http://x").0);
    assert!(!one.resume_program(&mut programs, "active", "http://x").0);
    assert_eq!(url_of(&programs, "active"), None);
    let handle = one.release_program(&mut programs, "p", "http://x").unwrap().unwrap();
    assert!(Arc::ptr_eq(&handle, &held));
    assert_eq!(url_of(&programs, "p"), Some("http://x".to_string()));
    assert!(!one.resume_program(&mut programs, "p", "http://y").0);
    assert_eq!(url_of(&programs, "p"), Some("http://x".to_string()));
}

#[test]
fn a_program_that_waited_too_long_is_forced() {
    let two = scheduler(vec![backend("http://a", 1), backend("http://b", 10_000)]);
    let mut programs = registry(vec![paused("p", 2, ProgramStatus::Reasoning, 100)]);
    assert_eq!(two.first_backend_url(), Some("http://a".to_string()));
    two.wait_for_resume_or_force(&mut programs, "p", true);
    assert_eq!(found(&programs, "p").state, ProgramState::Paused);
    let none = scheduler(vec![]);
    assert_eq!(none.first_backend_url(), None);
    none.wait_for_resume_or_force(&mut programs, "p", false);
    assert_eq!(found(&programs, "p").state, ProgramState::Paused);
    two.wait_for_resume_or_force(&mut programs, "p", false);
    assert_eq!(url_of(&programs, "p"), Some("http://a".to_string()));
}

#[test]
fn pausing_frees_and_resuming_takes_room() {
    let a = backend("http://a", 10_000);
    let one = scheduler(vec![backend("http://a", 10_000)]);
    let mut programs = registry(vec![
        bound("1", "http://a", ProgramStatus::Reasoning, 100),
        bound("2", "http://a", ProgramStatus::Acting, 40),
    ]);
    let before = a.remaining_capacity(&programs, 140).unwrap();
    let mut held = Program::new("");
    programs.exchange("1", &mut held);
    held.pause(Some("http://a".to_string()));
    programs.exchange("1", &mut held);
    assert_eq!(a.reasoning_program_tokens(&programs), 0);
    assert_eq!(a.active_program_count(&programs), 1);
    assert_eq!(a.remaining_capacity(&programs, 40), Some(before + 200));
    assert!(one.resume_program(&mut programs, "1", "http://a").0);
    assert_eq!(a.reasoning_program_tokens(&programs), 100);
    assert_eq!(a.remaining_capacity(&programs, 140), Some(before));
}

#[test]
fn the_scheduler_takes_in_what_backends_report() {
    let unknown =
        BackendState::with_options("http://b", VllmMetricsClient::new("http://b"), 0, false);
    let mut two = scheduler(vec![backend("http://a", 1000), unknown]);
    assert_eq!(two.fetch_cache_config(1, reply(5000)), Some(true));
    assert_eq!(two.fetch_cache_config(0, ServerInfoReply::Unreachable), Some(false));
    assert_eq!(two.fetch_cache_config(2, reply(5000)), None);
    assert_eq!(two.backends().len(), 2);
    assert!(!two.backends()[0].healthy());
    assert!(two.backends()[1].healthy());
    let mut programs = registry(vec![paused("p", 2, ProgramStatus::Reasoning, 700)]);
    two.greedy_resume(&mut programs, &vec![0, 0]);
    assert_eq!(url_of(&programs, "p"), Some("http://b".to_string()));
}

#[test]
fn a_later_candidate_does_not_displace_an_earlier_one() {
    let one = scheduler(vec![backend("http://a", 500)]);
    let mut programs = registry(vec![
        paused("first", 2, ProgramStatus::Reasoning, 200),
        paused("too large", 2, ProgramStatus::Reasoning, 250),
        paused("last", 2, ProgramStatus::Acting, 100),
    ]);
    one.greedy_resume(&mut programs, &vec![0]);
    assert_eq!(found(&programs, "first").state, ProgramState::Active);
    assert_eq!(found(&programs, "too large").state, ProgramState::Paused);
    assert_eq!(found(&programs, "last").state, ProgramState::Active);
}

#[test]
fn equal_programs_are_all_resumed_where_they_fit() {
    let one = scheduler(vec![backend("http://a", 450)]);
    let mut programs = registry(vec![
        paused("x", 2, ProgramStatus::Reasoning, 50),
        paused("y", 2, ProgramStatus::Reasoning, 50),
        paused("z", 2, ProgramStatus::Reasoning, 50),
        paused("w", 2, ProgramStatus::Reasoning, 50),
    ]);
    one.greedy_resume(&mut programs, &vec![0]);
    let mut active = 0;
    for (_, program) in programs.entries() {
        if program.state == ProgramState::Active {
            active += 1;
        }
    }
    assert_eq!(active, 3);
}

#[test]
fn backends_of_both_kinds_stand_side_by_side() {
    let clients = vec![
        AnyMetricsClient::Vllm(VllmMetricsClient::new("http://a/")),
        AnyMetricsClient::Skyrl(SkyrlMetricsClient::new("http://b/")),
    ];
    let mut backends: Vec<BackendState<AnyMetricsClient>> = Vec::new();
    for client in clients {
        let url = client.url().to_string();
        assert_eq!(client.server_info_url(), format!("{url}/get_server_info"));
        backends.push(BackendState::with_options(&url, client, 0, false));
    }
    let mut both = SchedulerState::new(backends, Duration::from_secs(1));
    assert_eq!(both.fetch_cache_config(1, reply(500)), Some(true));
    assert_eq!(both.fetch_cache_config(0, ServerInfoReply::Unreachable), Some(false));
    assert!(!both.backends()[0].metrics().healthy());
    assert_eq!(both.backends()[1].metrics().cache_config().unwrap().total_kv_cache_tokens, 500);
    assert_eq!(both.backends()[1].metrics().snapshot()["backend_type"], Value::from("skyrl"));
    assert_eq!(both.backends()[0].metrics().snapshot().get("backend_type"), None);
    let mut programs = registry(vec![paused("p", 2, ProgramStatus::Reasoning, 10)]);
    assert_eq!(both.greedy_resume(&mut programs, &vec![0, 0]).len(), 1);
    assert_eq!(url_of(&programs, "p"), Some("http://b".to_string()));
}

#[test]
fn decaying_tokens_need_no_total() {
    let client = VllmMetricsClient::new("http://a");
    let decaying = BackendState::with_options("http://a", client, 1.0f64.to_bits(), true);
    let plain = backend("http://a", 10);
    let programs = registry(vec![
        bound("1", "http://a", ProgramStatus::Acting, u64::MAX),
        bound("2", "http://a", ProgramStatus::Acting, 1),
        bound("3", "http://a", ProgramStatus::Reasoning, 7),
    ]);
    assert!(plain.checked_decaying_load(&programs, 0).is_none());
    let load = decaying.checked_decaying_load(&programs, 0).unwrap();
    assert_eq!(load.reasoning, 7);
    match load.acting {
        ActingTokens::Aged(ages) => {
            let sum: u128 = ages.iter().map(|age| age.0 as u128).sum();
            assert_eq!(sum, u64::MAX as u128 + 1);
        }
        other => panic!("{other:?}"),
    }
}

#[test]
fn a_program_waits_for_its_equals_and_betters_only() {
    let one = scheduler(vec![backend("http://a", 1000)]);
    let mut programs = registry(vec![
        paused("reasoning", 2, ProgramStatus::Reasoning, 300),
        paused("new", 1, ProgramStatus::Reasoning, 600),
        paused("acting", 2, ProgramStatus::Acting, 100),
    ]);
    one.greedy_resume(&mut programs, &vec![0]);
    assert_eq!(found(&programs, "reasoning").state, ProgramState::Active);
    assert_eq!(found(&programs, "acting").state, ProgramState::Active);
    assert_eq!(found(&programs, "new").state, ProgramState::Paused);
}
