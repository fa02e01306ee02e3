use serde_json::Value;
use std::time::{Duration, SystemTime};
use thunder::clock::{ms_since_epoch, now_ms};
use thunder::metrics::{
    CacheConfig, MetricsClient, ServerInfoReply, SkyrlMetricsClient, VllmMetricsClient,
};
use thunder::profile::ProfileState;
use thunder::usage::UsageTokens;

fn counts(prompt: Option<u64>, completion: Option<u64>, total: Option<u64>) -> Option<UsageTokens> {
    Some(UsageTokens {
        prompt_tokens: prompt,
        completion_tokens: completion,
        total_tokens: total,
        cached_tokens: Some(1),
    })
}

#[test]
fn a_request_is_timed() {
    let mut profile = ProfileState::new("p");
    assert_eq!(profile.first_token_time_ms(), None);
    assert_eq!(profile.decode_time_ms(), None);
    profile.on_request_arrive_at(1000);
    profile.on_request_start_at(1100);
    profile.on_first_token_at(1250);
    profile.on_first_token_at(1900);
    profile.on_token(20);
    profile.on_token(3);
    assert_eq!(profile.token_count, 23);
    assert_eq!(profile.first_token_time_ms(), Some(150));
    assert_eq!(profile.decode_time_ms(), None);
    profile.on_request_end_at(2250, counts(Some(7), Some(5), None));
    assert_eq!(profile.decode_time_ms(), Some(1000));
    assert_eq!(profile.prompt_tokens, 7);
    assert_eq!(profile.completion_tokens, 5);
    assert_eq!(profile.cached_tokens, 1);
    assert_eq!(profile.token_count, 12);
    assert_eq!(profile.program_id, "p");
}

#[test]
fn a_reported_total_is_the_token_count() {
    let mut profile = ProfileState::new("p");
    profile.on_token(40);
    profile.on_request_end_at(5, None);
    assert_eq!(profile.token_count, 40);
    profile.on_request_end_at(6, counts(Some(7), Some(5), Some(99)));
    assert_eq!(profile.token_count, 99);
    profile.on_request_end_at(7, counts(Some(u64::MAX), Some(5), None));
    assert_eq!(profile.token_count, u64::MAX);
    profile.on_token(1);
    assert_eq!(profile.token_count, u64::MAX);
}

#[test]
fn an_arrival_forgets_the_last_request() {
    let mut profile = ProfileState::new("p");
    profile.on_request_start_at(1);
    profile.on_first_token_at(2);
    profile.on_request_end_at(3, counts(Some(7), Some(5), Some(12)));
    profile.on_request_arrive_at(10);
    assert_eq!(profile.request_arrive_ms, Some(10));
    assert_eq!(profile.request_start_ms, None);
    assert_eq!(profile.first_token_ms, None);
    assert_eq!(profile.request_end_ms, None);
    assert_eq!(profile.token_count, 0);
    assert_eq!(profile.prompt_tokens, 0);
    assert_eq!(profile.completion_tokens, 0);
    assert_eq!(profile.cached_tokens, 0);
}

#[test]
fn times_that_run_backwards_are_zero() {
    let mut profile = ProfileState::new("p");
    profile.on_request_start_at(50);
    profile.on_first_token_at(40);
    profile.on_request_end_at(30, None);
    assert_eq!(profile.first_token_time_ms(), Some(0));
    assert_eq!(profile.decode_time_ms(), Some(0));
}

#[test]
fn the_clock_runs_along() {
    let mut profile = ProfileState::new("p");
    profile.on_request_arrive();
    profile.on_request_start();
    profile.on_first_token();
    let first = profile.first_token_ms;
    profile.on_first_token();
    assert_eq!(profile.first_token_ms, first);
    profile.on_request_end(None);
    assert!(profile.request_arrive_ms.unwrap() > 1_600_000_000_000);
    assert!(profile.request_start_ms.is_some());
    assert!(profile.first_token_time_ms().is_some());
    assert!(profile.decode_time_ms().is_some());
}

#[test]
fn the_capacity_is_the_reported_one_or_that_of_the_blocks() {
    let reported = CacheConfig { block_size: 16, num_gpu_blocks: 10, total_kv_cache_tokens: 7 };
    assert_eq!(reported.total_tokens_capacity(), 7);
    let blocks = CacheConfig { block_size: 16, num_gpu_blocks: 10, total_kv_cache_tokens: 0 };
    assert_eq!(blocks.total_tokens_capacity(), 160);
    assert_eq!(CacheConfig::default().total_tokens_capacity(), 0);
    let huge = CacheConfig { block_size: u64::MAX, num_gpu_blocks: 3, total_kv_cache_tokens: 0 };
    assert_eq!(huge.total_tokens_capacity(), u64::MAX);
}

fn answered(status: u16, cache_config: Option<CacheConfig>) -> ServerInfoReply {
    ServerInfoReply::Answered { status, cache_config }
}

#[test]
fn a_client_keeps_what_the_backend_reported_last() {
    let mut client = VllmMetricsClient::new("http://host:1//");
    assert_eq!(client.url(), "http://host:1");
    assert_eq!(client.server_info_url(), "http://host:1/get_server_info");
    assert_eq!(client.cache_config(), None);
    assert!(!client.healthy());
    let config = CacheConfig { block_size: 16, num_gpu_blocks: 4, total_kv_cache_tokens: 0 };
    assert!(client.fetch_cache_config(answered(200, Some(config))));
    assert_eq!(client.cache_config(), Some(config));
    assert!(client.healthy());
    assert!(!client.fetch_cache_config(ServerInfoReply::Unreachable));
    assert_eq!(client.cache_config(), Some(config));
    assert!(!client.healthy());
    assert!(client.fetch_cache_config(answered(299, Some(CacheConfig::default()))));
    assert_eq!(client.cache_config(), Some(CacheConfig::default()));
}

#[test]
fn failed_answers_make_a_backend_unhealthy() {
    for reply in [
        answered(500, Some(CacheConfig::default())),
        answered(300, Some(CacheConfig::default())),
        answered(199, Some(CacheConfig::default())),
        answered(200, None),
        ServerInfoReply::Unreachable,
    ] {
        let mut client = SkyrlMetricsClient::new("http://host");
        client.fetch_cache_config(answered(200, Some(CacheConfig::default())));
        assert!(client.healthy());
        assert!(!client.fetch_cache_config(reply));
        assert!(!client.healthy());
        assert!(client.cache_config().is_some());
    }
}

fn parsed(text: &str) -> Value {
    text.parse().unwrap()
}

#[test]
fn clients_show_what_they_know() {
    let config = CacheConfig { block_size: 16, num_gpu_blocks: 4, total_kv_cache_tokens: 0 };
    let mut vllm = VllmMetricsClient::new("http://host/");
    assert_eq!(vllm.snapshot(), parsed(r#"{"url":"http://host","healthy":false}"#));
    vllm.fetch_cache_config(answered(200, Some(config)));
    assert_eq!(
        vllm.snapshot(),
        parsed(
            r#"{"url":"http://host","healthy":true,"cache_config":{"block_size":16,
                "num_gpu_blocks":4,"total_kv_cache_tokens":0,"total_tokens_capacity":64}}"#
        )
    );
    let mut skyrl = SkyrlMetricsClient::new("http://host/");
    assert_eq!(skyrl.url(), "http://host");
    assert_eq!(skyrl.server_info_url(), "http://host/get_server_info");
    assert_eq!(
        skyrl.snapshot(),
        parsed(r#"{"url":"http://host","healthy":false,"backend_type":"skyrl"}"#)
    );
    skyrl.fetch_cache_config(answered(200, Some(config)));
    assert_eq!(skyrl.snapshot()["cache_config"]["total_tokens_capacity"], parsed("64"));
}

#[test]
fn times_are_counted_from_the_epoch() {
    let epoch = SystemTime::UNIX_EPOCH;
    assert_eq!(ms_since_epoch(epoch), Some(0));
    assert_eq!(ms_since_epoch(epoch + Duration::from_micros(1_500_999)), Some(1500));
    assert_eq!(ms_since_epoch(epoch - Duration::from_millis(1)), None);
    let first = now_ms();
    assert!(first > 1_600_000_000_000);
    assert!(now_ms() < first + 20_000);
}
