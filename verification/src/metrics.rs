//! What is known of a backend's cache and health.

use crate::json::{
    bool_value, count_value, json_of, members_of, object_value, text_value, Json, JsonNumber,
};
use crate::numbers::{capped_product, product_capped};
use crate::text::{joined, trim_end_of, without_trailing_slashes};
use serde_json::Value;
use vstd::prelude::*;

verus! {

/// The key-value cache that a backend reports.
#[derive(Debug, Clone, Copy, PartialEq, Eq)]
pub struct CacheConfig {
    pub block_size: u64,
    pub num_gpu_blocks: u64,
    pub total_kv_cache_tokens: u64,
}

impl Default for CacheConfig {
    fn default() -> (r: CacheConfig)
        ensures
            r == (CacheConfig { block_size: 0, num_gpu_blocks: 0, total_kv_cache_tokens: 0 }),
    {
        CacheConfig { block_size: 0, num_gpu_blocks: 0, total_kv_cache_tokens: 0 }
    }
}

impl CacheConfig {
    /// How many tokens the cache holds: the reported number where there is one, and otherwise what
    /// the blocks hold together.
    pub open spec fn capacity(self) -> u64 {
        if self.total_kv_cache_tokens > 0 {
            self.total_kv_cache_tokens
        } else {
            capped_product(self.block_size, self.num_gpu_blocks)
        }
    }

    /// The document that shows the cache.
    pub open spec fn shown(self) -> Json {
        Json::Object(
            map![
                "block_size"@ => Json::Number(JsonNumber::Unsigned(self.block_size)),
                "num_gpu_blocks"@ => Json::Number(JsonNumber::Unsigned(self.num_gpu_blocks)),
                "total_kv_cache_tokens"@ => Json::Number(
                    JsonNumber::Unsigned(self.total_kv_cache_tokens),
                ),
                "total_tokens_capacity"@ => Json::Number(JsonNumber::Unsigned(self.capacity())),
            ],
        )
    }

    pub fn total_tokens_capacity(&self) -> (r: u64)
        ensures
            r == self.capacity(),
    {
        if self.total_kv_cache_tokens > 0 {
            self.total_kv_cache_tokens
        } else {
            product_capped(self.block_size, self.num_gpu_blocks)
        }
    }

    fn snapshot(&self) -> (r: Value)
        ensures
            json_of(r) == self.shown(),
    {
        let mut members = serde_json::Map::new();
        members.insert("block_size".to_owned(), count_value(self.block_size));
        members.insert("num_gpu_blocks".to_owned(), count_value(self.num_gpu_blocks));
        members.insert("total_kv_cache_tokens".to_owned(), count_value(self.total_kv_cache_tokens));
        members.insert(
            "total_tokens_capacity".to_owned(),
            count_value(self.total_tokens_capacity()),
        );
        proof {
            assert(members_of(members) =~= self.shown()->Object_0);
        }
        object_value(members)
    }
}

/// What came of asking a backend for its cache.
#[derive(Debug, Clone, Copy)]
pub enum ServerInfoReply {
    /// The backend could not be asked.
    Unreachable,
    /// The backend answered with a status and, where its body could be read, its cache.
    Answered { status: u16, cache_config: Option<CacheConfig> },
}

/// The cache that a reply gives: that of a successful answer whose body could be read.
pub open spec fn reported_cache(reply: ServerInfoReply) -> Option<CacheConfig> {
    match reply {
        ServerInfoReply::Answered { status, cache_config } => if 200 <= status < 300 {
            cache_config
        } else {
            None
        },
        ServerInfoReply::Unreachable => None,
    }
}

/// What a client knows of its backend.
pub struct MetricsView {
    pub url: Seq<char>,
    pub cache_config: Option<CacheConfig>,
    pub healthy: bool,
    /// The kind of backend, where a client shows one.
    pub backend_type: Option<Seq<char>>,
}

impl MetricsView {
    /// A reply came: a cache that it gives replaces the one known, and the backend is healthy if and
    /// only if it gives one.
    pub open spec fn fetched(self, reply: ServerInfoReply) -> MetricsView {
        MetricsView {
            cache_config: if reported_cache(reply) is Some {
                reported_cache(reply)
            } else {
                self.cache_config
            },
            healthy: reported_cache(reply) is Some,
            ..self
        }
    }

    /// The members that show what is known.
    pub open spec fn members(self) -> Map<Seq<char>, Json> {
        let basic = map!["url"@ => Json::Text(self.url), "healthy"@ => Json::Bool(self.healthy)];
        let with_cache = match self.cache_config {
            Some(config) => basic.insert("cache_config"@, config.shown()),
            None => basic,
        };
        match self.backend_type {
            Some(kind) => with_cache.insert("backend_type"@, Json::Text(kind)),
            None => with_cache,
        }
    }
}

/// A client that keeps what one backend reports.
pub trait MetricsClient: Sized {
    /// What the client knows.
    spec fn known(&self) -> MetricsView;

    /// The backend's address.
    fn url(&self) -> (r: &str)
        ensures
            r@ == self.known().url,
    ;

    /// The cache reported last, or nothing if none ever was.
    fn cache_config(&self) -> (r: Option<CacheConfig>)
        ensures
            r == self.known().cache_config,
    ;

    /// Whether the backend reported its cache when it was asked last.
    fn healthy(&self) -> (r: bool)
        ensures
            r == self.known().healthy,
    ;

    /// Takes in what came of asking the backend, and tells whether it reported its cache.
    fn fetch_cache_config(&mut self, reply: ServerInfoReply) -> (r: bool)
        ensures
            r == (reported_cache(reply) is Some),
            final(self).known() == old(self).known().fetched(reply),
    ;

    /// Shows what the client knows.
    fn snapshot(&self) -> (r: Value)
        ensures
            json_of(r) == Json::Object(self.known().members()),
    ;
}

/// A client of a vLLM backend.
#[derive(Debug)]
pub struct VllmMetricsClient {
    url: String,
    cache_config: Option<CacheConfig>,
    healthy: bool,
}

impl VllmMetricsClient {
    pub closed spec fn view(&self) -> MetricsView {
        MetricsView {
            url: self.url@,
            cache_config: self.cache_config,
            healthy: self.healthy,
            backend_type: None,
        }
    }

    /// A client of the backend at `url`, of which nothing is known yet.
    pub fn new(url: &str) -> (r: VllmMetricsClient)
        ensures
            r@ == (MetricsView {
                url: trim_end_of(url@, '/'),
                cache_config: None,
                healthy: false,
                backend_type: None,
            }),
    {
        VllmMetricsClient {
            url: without_trailing_slashes(url),
            cache_config: None,
            healthy: false,
        }
    }

    /// Where the backend is asked for its cache.
    pub fn server_info_url(&self) -> (r: String)
        ensures
            r@ == self@.url + "/get_server_info"@,
    {
        joined(self.url.as_str(), "/get_server_info")
    }

    fn members(&self) -> (r: serde_json::Map<String, Value>)
        ensures
            members_of(r) == self@.members(),
    {
        let mut members = serde_json::Map::new();
        members.insert("url".to_owned(), text_value(self.url.clone()));
        members.insert("healthy".to_owned(), bool_value(self.healthy));
        if let Some(config) = self.cache_config {
            members.insert("cache_config".to_owned(), config.snapshot());
        }
        proof {
            assert(members_of(members) =~= self@.members());
        }
        members
    }
}

impl MetricsClient for VllmMetricsClient {
    open spec fn known(&self) -> MetricsView {
        self@
    }

    fn url(&self) -> &str {
        self.url.as_str()
    }

    fn cache_config(&self) -> Option<CacheConfig> {
        self.cache_config
    }

    fn healthy(&self) -> bool {
        self.healthy
    }

    fn fetch_cache_config(&mut self, reply: ServerInfoReply) -> bool {
        let reported: Option<CacheConfig> = match reply {
            ServerInfoReply::Unreachable => None,
            ServerInfoReply::Answered { status, cache_config } => if 200 <= status && status < 300 {
                cache_config
            } else {
                None
            },
        };
        match reported {
            Some(config) => {
                self.cache_config = Some(config);
                self.healthy = true;
                true
            },
            None => {
                self.healthy = false;
                false
            },
        }
    }

    fn snapshot(&self) -> Value {
        object_value(self.members())
    }
}

/// A client of a SkyRL backend, which reports as a vLLM backend does.
#[derive(Debug)]
pub struct SkyrlMetricsClient {
    inner: VllmMetricsClient,
}

impl SkyrlMetricsClient {
    pub closed spec fn view(&self) -> MetricsView {
        MetricsView { backend_type: Some("skyrl"@), ..self.inner@ }
    }

    /// A client of the backend at `url`, of which nothing is known yet.
    pub fn new(url: &str) -> (r: SkyrlMetricsClient)
        ensures
            r@ == (MetricsView {
                url: trim_end_of(url@, '/'),
                cache_config: None,
                healthy: false,
                backend_type: Some("skyrl"@),
            }),
    {
        SkyrlMetricsClient { inner: VllmMetricsClient::new(url) }
    }

    /// Where the backend is asked for its cache.
    pub fn server_info_url(&self) -> (r: String)
        ensures
            r@ == self@.url + "/get_server_info"@,
    {
        self.inner.server_info_url()
    }
}

impl MetricsClient for SkyrlMetricsClient {
    open spec fn known(&self) -> MetricsView {
        self@
    }

    fn url(&self) -> &str {
        self.inner.url()
    }

    fn cache_config(&self) -> Option<CacheConfig> {
        self.inner.cache_config()
    }

    fn healthy(&self) -> bool {
        self.inner.healthy()
    }

    fn fetch_cache_config(&mut self, reply: ServerInfoReply) -> bool {
        self.inner.fetch_cache_config(reply)
    }

    fn snapshot(&self) -> Value {
        let mut members = self.inner.members();
        members.insert("backend_type".to_owned(), text_value("skyrl".to_owned()));
        object_value(members)
    }
}

/// A client of a backend of either kind, so that backends of both kinds can stand side by side.
#[derive(Debug)]
pub enum AnyMetricsClient {
    Vllm(VllmMetricsClient),
    Skyrl(SkyrlMetricsClient),
}

impl AnyMetricsClient {
    pub open spec fn view(&self) -> MetricsView {
        match *self {
            AnyMetricsClient::Vllm(client) => client@,
            AnyMetricsClient::Skyrl(client) => client@,
        }
    }

    /// Where the backend is asked for its cache.
    pub fn server_info_url(&self) -> (r: String)
        ensures
            r@ == self@.url + "/get_server_info"@,
    {
        match self {
            AnyMetricsClient::Vllm(client) => client.server_info_url(),
            AnyMetricsClient::Skyrl(client) => client.server_info_url(),
        }
    }
}

impl MetricsClient for AnyMetricsClient {
    open spec fn known(&self) -> MetricsView {
        self@
    }

    fn url(&self) -> &str {
        match self {
            AnyMetricsClient::Vllm(client) => client.url(),
            AnyMetricsClient::Skyrl(client) => client.url(),
        }
    }

    fn cache_config(&self) -> Option<CacheConfig> {
        match self {
            AnyMetricsClient::Vllm(client) => client.cache_config(),
            AnyMetricsClient::Skyrl(client) => client.cache_config(),
        }
    }

    fn healthy(&self) -> bool {
        match self {
            AnyMetricsClient::Vllm(client) => client.healthy(),
            AnyMetricsClient::Skyrl(client) => client.healthy(),
        }
    }

    fn fetch_cache_config(&mut self, reply: ServerInfoReply) -> bool {
        match self {
            AnyMetricsClient::Vllm(client) => client.fetch_cache_config(reply),
            AnyMetricsClient::Skyrl(client) => client.fetch_cache_config(reply),
        }
    }

    fn snapshot(&self) -> Value {
        match self {
            AnyMetricsClient::Vllm(client) => client.snapshot(),
            AnyMetricsClient::Skyrl(client) => client.snapshot(),
        }
    }
}

/// A cache once reported is kept through failures, which only make the backend unhealthy.
pub proof fn a_reported_cache_is_kept(known: MetricsView, reply: ServerInfoReply)
    requires
        reported_cache(reply) is None,
    ensures
        known.fetched(reply).cache_config == known.cache_config,
        !known.fetched(reply).healthy,
{
}

/// A backend that is healthy has reported its cache: a new client is not healthy, and every reply
/// keeps it so.
pub proof fn a_healthy_backend_has_a_cache(known: MetricsView, reply: ServerInfoReply)
    requires
        known.healthy ==> known.cache_config is Some,
    ensures
        known.fetched(reply).healthy ==> known.fetched(reply).cache_config is Some,
{
}

/// The capacity is the reported number of tokens where that is above zero, and otherwise what the
/// blocks hold together, up to the largest number there is.
pub proof fn the_capacity_is_reported_or_worked_out(config: CacheConfig)
    ensures
        config.total_kv_cache_tokens > 0 ==> config.capacity() == config.total_kv_cache_tokens,
        config.total_kv_cache_tokens == 0 && config.block_size * config.num_gpu_blocks <= u64::MAX
            ==> config.capacity() == config.block_size * config.num_gpu_blocks,
        config.total_kv_cache_tokens == 0 && config.block_size * config.num_gpu_blocks > u64::MAX
            ==> config.capacity() == u64::MAX,
{
}

/// After a successful reply with a readable cache the known cache is exactly the one in that reply,
/// whatever was known before, and the backend is healthy. After any other reply the known cache is
/// the one known before, and the backend is not healthy. The address and the kind of the backend
/// never change.
pub proof fn the_last_reported_cache_is_known(
    known: MetricsView,
    status: u16,
    config: CacheConfig,
)
    ensures
        ({
            let reply = ServerInfoReply::Answered { status, cache_config: Some(config) };
            let empty = ServerInfoReply::Answered { status, cache_config: None };
            let after = known.fetched(reply);
            let failed = known.fetched(empty);
            let missed = known.fetched(ServerInfoReply::Unreachable);
            &&& 200 <= status <= 299 ==> after.cache_config == Some(config) && after.healthy
            &&& status < 200 || status > 299 ==> after.cache_config == known.cache_config
                && !after.healthy
            &&& failed.cache_config == known.cache_config && !failed.healthy
            &&& missed.cache_config == known.cache_config && !missed.healthy
            &&& after.url == known.url && failed.url == known.url && missed.url == known.url
            &&& after.backend_type == known.backend_type && failed.backend_type
                == known.backend_type && missed.backend_type == known.backend_type
        }),
{
}

/// Of two successful replies in turn the last one alone decides what is known.
pub proof fn the_last_reply_alone_decides(
    known: MetricsView,
    first: ServerInfoReply,
    status: u16,
    config: CacheConfig,
)
    requires
        200 <= status <= 299,
    ensures
        ({
            let last = ServerInfoReply::Answered { status, cache_config: Some(config) };
            known.fetched(first).fetched(last) == known.fetched(last)
        }),
{
}

/// Whether a reply reports a cache: it does if and only if its status is one of success and its body
/// could be read, and the cache is the one that it holds.
pub proof fn a_cache_is_reported_by_success_only(
    status: u16,
    cache_config: Option<CacheConfig>,
)
    ensures
        200 <= status <= 299 ==> reported_cache(ServerInfoReply::Answered { status, cache_config })
            == cache_config,
        status < 200 || status > 299 ==> reported_cache(
            ServerInfoReply::Answered { status, cache_config },
        ) is None,
        reported_cache(ServerInfoReply::Unreachable) is None,
{
}

/// A cache is shown with its three numbers and its capacity under their names, and nothing else.
pub proof fn a_cache_is_shown_whole(config: CacheConfig)
    ensures
        config.shown() matches Json::Object(members) && {
            &&& members.dom() == set![
                "block_size"@,
                "num_gpu_blocks"@,
                "total_kv_cache_tokens"@,
                "total_tokens_capacity"@,
            ]
            &&& members["block_size"@] == Json::Number(JsonNumber::Unsigned(config.block_size))
            &&& members["num_gpu_blocks"@] == Json::Number(
                JsonNumber::Unsigned(config.num_gpu_blocks),
            )
            &&& members["total_kv_cache_tokens"@] == Json::Number(
                JsonNumber::Unsigned(config.total_kv_cache_tokens),
            )
            &&& members["total_tokens_capacity"@] == Json::Number(
                JsonNumber::Unsigned(config.capacity()),
            )
        },
{
    reveal_strlit("block_size");
    reveal_strlit("num_gpu_blocks");
    reveal_strlit("total_kv_cache_tokens");
    reveal_strlit("total_tokens_capacity");
    assert("block_size"@.len() == 10 && "num_gpu_blocks"@.len() == 14);
    assert("total_kv_cache_tokens"@.len() == 21 && "total_tokens_capacity"@.len() == 21);
    assert("total_kv_cache_tokens"@[6] == 'k' && "total_tokens_capacity"@[6] == 't');
    let members = config.shown()->Object_0;
    assert(members.dom() =~= set![
        "block_size"@,
        "num_gpu_blocks"@,
        "total_kv_cache_tokens"@,
        "total_tokens_capacity"@,
    ]);
}

/// What a client knows is shown under the names of its parts: the address and the health always, the
/// cache and the kind of backend where they are known, and nothing else.
pub proof fn what_is_known_is_shown(known: MetricsView)
    ensures
        known.members().contains_key("url"@) && known.members()["url"@] == Json::Text(known.url),
        known.members().contains_key("healthy"@) && known.members()["healthy"@] == Json::Bool(
            known.healthy,
        ),
        known.cache_config matches Some(config) ==> known.members().contains_key("cache_config"@)
            && known.members()["cache_config"@] == config.shown(),
        known.cache_config is None ==> !known.members().contains_key("cache_config"@),
        known.backend_type matches Some(kind) ==> known.members().contains_key("backend_type"@)
            && known.members()["backend_type"@] == Json::Text(kind),
        known.backend_type is None ==> !known.members().contains_key("backend_type"@),
        forall|key: Seq<char>| #[trigger]
            known.members().contains_key(key) ==> key == "url"@ || key == "healthy"@ || key
                == "cache_config"@ || key == "backend_type"@,
{
    reveal_strlit("url");
    reveal_strlit("healthy");
    reveal_strlit("cache_config");
    reveal_strlit("backend_type");
    assert("url"@.len() == 3 && "healthy"@.len() == 7);
    assert("cache_config"@.len() == 12 && "backend_type"@.len() == 12);
    assert("cache_config"@[0] == 'c' && "backend_type"@[0] == 'b');
}

} // verus!
