//! One backend: the programs bound to it, the tokens they hold, and the room that is left.

use crate::clock::{now_ms, reads_clock_or_zero};
use crate::json::{
    bool_value, count_value, json_of, members_of, null_value, object_value, signed_json,
    signed_value, text_value, Json, JsonNumber,
};
use crate::metrics::{CacheConfig, MetricsClient, MetricsView};
use crate::numbers::{as_signed, signed};
use crate::program::{Program, ProgramStatus, ProgramView};
use crate::registry::{
    a_sum_of_nothing_is_nothing, a_walk_sums_up, lists, one_program_more, sum_of_entries, sum_over,
    sum_without, ProgramRegistry,
};
use crate::text::optional_is;
use serde_json::Value;
use std::sync::Arc;
use tokio::sync::Notify;
use vstd::prelude::*;

verus! {

/// Tokens kept free for each program on a backend, for what it decodes next.
pub const BUFFER_PER_PROGRAM: u64 = 100;

/// The tokens of the acting programs of a backend.
#[derive(Debug)]
pub enum ActingTokens {
    /// All of them together.
    Whole(u64),
    /// Those of each program, with the milliseconds since it began to act.
    Aged(Vec<(u64, u128)>),
}

/// The tokens of the programs of a backend, as terms of a weighted sum.
#[derive(Debug)]
pub struct TokenLoad {
    pub reasoning: u64,
    pub acting: ActingTokens,
}

/// A backend.
#[derive(Debug)]
pub struct BackendState<M> {
    url: String,
    metrics: M,
    /// The bit pattern of the factor by which the tokens of acting programs count.
    tool_coefficient_bits: u64,
    use_acting_token_decay: bool,
}

/// The value of a backend.
pub struct BackendView {
    pub url: Seq<char>,
    pub metrics: MetricsView,
    pub tool_coefficient_bits: u64,
    pub use_acting_token_decay: bool,
}

/// Whether a program is bound to the backend at `url` and has the given status.
pub open spec fn counts_for(program: ProgramView, url: Seq<char>, status: ProgramStatus) -> bool {
    program.backend_url == Some(url) && program.status == status
}

/// The tokens that a program of the given status holds on the backend at `url`.
pub open spec fn tokens_on(url: Seq<char>, status: ProgramStatus) -> spec_fn(ProgramView) -> int {
    |program: ProgramView|
        if counts_for(program, url, status) {
            program.total_tokens as int
        } else {
            0
        }
}

/// One for a program that is bound to the backend at `url`.
pub open spec fn one_on(url: Seq<char>) -> spec_fn(ProgramView) -> int {
    |program: ProgramView|
        if program.backend_url == Some(url) {
            1
        } else {
            0
        }
}

/// The tokens of all programs of the given status on the backend at `url`.
pub open spec fn program_tokens(
    programs: Map<Seq<char>, ProgramView>,
    url: Seq<char>,
    status: ProgramStatus,
) -> int {
    sum_over(programs, tokens_on(url, status))
}

/// How many programs are bound to the backend at `url`.
pub open spec fn program_count(programs: Map<Seq<char>, ProgramView>, url: Seq<char>) -> int {
    sum_over(programs, one_on(url))
}

/// How long a program has acted; zero where that is not known or lies ahead.
pub open spec fn acting_ms(program: ProgramView, now: u128) -> u128 {
    match program.acting_since_ms {
        Some(since) => if since <= now {
            (now - since) as u128
        } else {
            0
        },
        None => 0,
    }
}

/// `ages` holds the tokens and the age of each acting program on the backend at `url`, each once.
pub open spec fn lists_ages(
    ages: Seq<(u64, u128)>,
    programs: Map<Seq<char>, ProgramView>,
    url: Seq<char>,
    now: u128,
) -> bool {
    exists|ids: Seq<Seq<char>>| #[trigger] lists_ages_of(ages, ids, programs, url, now)
}

/// `ages[i]` is that of the program `ids[i]`, and `ids` holds each acting program on the backend at
/// `url` once.
pub open spec fn lists_ages_of(
    ages: Seq<(u64, u128)>,
    ids: Seq<Seq<char>>,
    programs: Map<Seq<char>, ProgramView>,
    url: Seq<char>,
    now: u128,
) -> bool {
    &&& ids.len() == ages.len()
    &&& ids.no_duplicates()
    &&& forall|i: int|
        0 <= i < ids.len() ==> programs.contains_key(#[trigger] ids[i]) && counts_for(
            programs[ids[i]],
            url,
            ProgramStatus::Acting,
        ) && ages[i] == (programs[ids[i]].total_tokens, acting_ms(programs[ids[i]], now))
    &&& forall|id: Seq<char>| #[trigger]
        programs.contains_key(id) && counts_for(programs[id], url, ProgramStatus::Acting)
            ==> ids.contains(id)
}

/// The room that is left of `capacity` when `used` tokens are taken and a buffer is kept for each of
/// `count` programs. The three amounts are 64-bit patterns read as signed integers.
pub open spec fn room_left(capacity: u64, used: u64, count: int) -> int {
    as_signed(capacity) - as_signed(used) - as_signed((count * BUFFER_PER_PROGRAM) as u64)
}

/// Whether working out the room that is left stays within 64 bits.
pub open spec fn room_fits(capacity: u64, used: u64, count: int) -> bool {
    &&& 0 <= count * BUFFER_PER_PROGRAM <= u64::MAX
    &&& i64::MIN <= as_signed(capacity) - as_signed(used) <= i64::MAX
    &&& i64::MIN <= room_left(capacity, used, count) <= i64::MAX
}

impl BackendView {
    /// The room that is left on the backend; nothing while its cache is not known.
    pub open spec fn remaining(
        self,
        programs: Map<Seq<char>, ProgramView>,
        used: u64,
    ) -> Option<i64> {
        match self.metrics.cache_config {
            Some(config) => Some(
                room_left(config.capacity(), used, program_count(programs, self.url)) as i64,
            ),
            None => None,
        }
    }

    /// Whether the room that is left can be worked out within 64 bits.
    pub open spec fn remaining_fits(
        self,
        programs: Map<Seq<char>, ProgramView>,
        used: u64,
    ) -> bool {
        self.metrics.cache_config matches Some(config) ==> room_fits(
            config.capacity(),
            used,
            program_count(programs, self.url),
        )
    }

    /// Whether the tokens of the programs on the backend fit 64 bits.
    pub open spec fn tokens_fit(self, programs: Map<Seq<char>, ProgramView>) -> bool {
        &&& program_tokens(programs, self.url, ProgramStatus::Reasoning) <= u64::MAX
        &&& program_tokens(programs, self.url, ProgramStatus::Acting) <= u64::MAX
    }
}

/// The document of the room that is left.
pub open spec fn room_json(room: Option<i64>) -> Json {
    match room {
        Some(n) => signed_json(n as int),
        None => Json::Null,
    }
}

/// The document of a count.
pub open spec fn count_json(n: int) -> Json {
    Json::Number(JsonNumber::Unsigned(n as u64))
}

impl BackendView {
    /// Whether the tokens that are added up, given how acting programs count, fit 64 bits.
    pub open spec fn decaying_tokens_fit(self, programs: Map<Seq<char>, ProgramView>) -> bool {
        if self.use_acting_token_decay {
            program_tokens(programs, self.url, ProgramStatus::Reasoning) <= u64::MAX
        } else {
            self.tokens_fit(programs)
        }
    }

    /// `load` holds the tokens of the programs on the backend at `now`: the acting ones with their
    /// ages where their tokens decay, and together where not.
    pub open spec fn decaying_load(
        self,
        programs: Map<Seq<char>, ProgramView>,
        now: u128,
        load: TokenLoad,
    ) -> bool {
        &&& load.reasoning == program_tokens(programs, self.url, ProgramStatus::Reasoning)
        &&& match load.acting {
            ActingTokens::Whole(acting) => !self.use_acting_token_decay && acting
                == program_tokens(programs, self.url, ProgramStatus::Acting),
            ActingTokens::Aged(ages) => self.use_acting_token_decay && lists_ages(
                ages@,
                programs,
                self.url,
                now,
            ),
        }
    }

    /// The document that shows the backend.
    pub open spec fn shown(
        self,
        programs: Map<Seq<char>, ProgramView>,
        used: u64,
        used_with_decay: u64,
        tool_coefficient: Json,
    ) -> Json {
        Json::Object(
            map![
                "url"@ => Json::Text(self.url),
                "active_program_tokens"@ => count_json(used as int),
                "active_program_tokens_with_decay"@ => count_json(used_with_decay as int),
                "reasoning_program_tokens"@ => count_json(
                    program_tokens(programs, self.url, ProgramStatus::Reasoning),
                ),
                "acting_program_tokens"@ => count_json(
                    program_tokens(programs, self.url, ProgramStatus::Acting),
                ),
                "active_program_count"@ => count_json(program_count(programs, self.url)),
                "remaining_capacity"@ => room_json(self.remaining(programs, used)),
                "remaining_capacity_with_decay"@ => room_json(
                    self.remaining(programs, used_with_decay),
                ),
                "buffer_per_program"@ => count_json(BUFFER_PER_PROGRAM as int),
                "tool_coefficient"@ => tool_coefficient,
                "use_acting_token_decay"@ => Json::Bool(self.use_acting_token_decay),
                "metrics"@ => Json::Object(self.metrics.members()),
            ],
        )
    }
}

proof fn sums_are_not_negative(
    entries: Seq<(String, Program)>,
    weight: spec_fn(ProgramView) -> int,
    n: int,
)
    requires
        forall|program: ProgramView| 0 <= #[trigger] weight(program),
        0 <= n <= entries.len(),
    ensures
        0 <= sum_of_entries(entries.take(n), weight) <= sum_of_entries(entries, weight),
    decreases entries.len(),
{
    if entries.len() == n {
        assert(entries.take(n) == entries);
    }
    if entries.len() > 0 {
        if n < entries.len() {
            sums_are_not_negative(entries.drop_last(), weight, n);
            assert(entries.drop_last().take(n) == entries.take(n));
        } else {
            sums_are_not_negative(entries.drop_last(), weight, n - 1);
            assert(entries.drop_last().take(n - 1) == entries.drop_last());
        }
    }
}

proof fn one_entry_more(
    entries: Seq<(String, Program)>,
    weight: spec_fn(ProgramView) -> int,
    n: int,
)
    requires
        0 <= n < entries.len(),
    ensures
        sum_of_entries(entries.take(n + 1), weight) == sum_of_entries(entries.take(n), weight)
            + weight(entries[n].1@),
{
    assert(entries.take(n + 1).drop_last() == entries.take(n));
}

spec fn among_first(entries: Seq<(String, Program)>, n: int, id: Seq<char>) -> bool {
    exists|j: int| 0 <= j < n && (#[trigger] entries[j]).0@ == id
}

impl<M: MetricsClient> BackendState<M> {
    pub closed spec fn view(&self) -> BackendView {
        BackendView {
            url: self.url@,
            metrics: self.metrics.known(),
            tool_coefficient_bits: self.tool_coefficient_bits,
            use_acting_token_decay: self.use_acting_token_decay,
        }
    }

    pub fn with_options(
        url: &str,
        metrics: M,
        tool_coefficient_bits: u64,
        use_acting_token_decay: bool,
    ) -> (r: BackendState<M>)
        ensures
            r@ == (BackendView {
                url: url@,
                metrics: metrics.known(),
                tool_coefficient_bits,
                use_acting_token_decay,
            }),
    {
        BackendState { url: url.to_owned(), metrics, tool_coefficient_bits, use_acting_token_decay }
    }

    pub fn url(&self) -> (r: &str)
        ensures
            r@ == self@.url,
    {
        self.url.as_str()
    }

    pub fn cache_config(&self) -> (r: Option<CacheConfig>)
        ensures
            r == self@.metrics.cache_config,
    {
        self.metrics.cache_config()
    }

    pub fn healthy(&self) -> (r: bool)
        ensures
            r == self@.metrics.healthy,
    {
        self.metrics.healthy()
    }

    /// The bit pattern of the factor by which the tokens of acting programs count.
    pub fn tool_coefficient_bits(&self) -> (r: u64)
        ensures
            r == self@.tool_coefficient_bits,
    {
        self.tool_coefficient_bits
    }

    /// The client that knows the backend's cache.
    pub fn metrics(&self) -> (r: &M)
        ensures
            r.known() == self@.metrics,
    {
        &self.metrics
    }

    /// The client that knows the backend's cache, to be told what the backend reports.
    pub fn metrics_mut(&mut self) -> (r: &mut M)
        ensures
            r.known() == old(self)@.metrics,
            final(self)@ == (BackendView { metrics: final(r).known(), ..old(self)@ }),
    {
        &mut self.metrics
    }

    /// Adds up the tokens of the programs of the given status, or nothing where they exceed 64 bits.
    pub fn checked_program_tokens(
        &self,
        programs: &ProgramRegistry,
        status: ProgramStatus,
    ) -> (r: Option<u64>)
        ensures
            r == if program_tokens(programs@, self@.url, status) <= u64::MAX {
                Some(program_tokens(programs@, self@.url, status) as u64)
            } else {
                None
            },
            0 <= program_tokens(programs@, self@.url, status),
    {
        let entries = programs.entries();
        let ghost weight = tokens_on(self@.url, status);
        proof {
            a_walk_sums_up(entries@, programs@, weight);
            sums_are_not_negative(entries@, weight, 0);
        }
        let mut sum: u64 = 0;
        let mut n: usize = 0;
        while n < entries.len()
            invariant
                n <= entries@.len(),
                weight == tokens_on(self@.url, status),
                sum == sum_of_entries(entries@.take(n as int), weight),
                sum_of_entries(entries@, weight) == program_tokens(programs@, self@.url, status),
            decreases entries@.len() - n,
        {
            let program = &entries[n].1;
            proof {
                one_entry_more(entries@, weight, n as int);
                sums_are_not_negative(entries@, weight, n + 1);
            }
            if optional_is(&program.backend_url, &self.url) && program.status == status {
                if program.total_tokens > u64::MAX - sum {
                    return None;
                }
                sum = sum + program.total_tokens;
            }
            n = n + 1;
        }
        proof {
            assert(entries@.take(entries@.len() as int) == entries@);
        }
        Some(sum)
    }

    /// Adds up the tokens of the programs of the given status.
    fn fold_programs(&self, programs: &ProgramRegistry, status: ProgramStatus) -> (r: u64)
        requires
            program_tokens(programs@, self@.url, status) <= u64::MAX,
        ensures
            r == program_tokens(programs@, self@.url, status),
    {
        self.checked_program_tokens(programs, status).unwrap()
    }

    pub fn reasoning_program_tokens(&self, programs: &ProgramRegistry) -> (r: u64)
        requires
            program_tokens(programs@, self@.url, ProgramStatus::Reasoning) <= u64::MAX,
        ensures
            r == program_tokens(programs@, self@.url, ProgramStatus::Reasoning),
    {
        self.fold_programs(programs, ProgramStatus::Reasoning)
    }

    pub fn acting_program_tokens(&self, programs: &ProgramRegistry) -> (r: u64)
        requires
            program_tokens(programs@, self@.url, ProgramStatus::Acting) <= u64::MAX,
        ensures
            r == program_tokens(programs@, self@.url, ProgramStatus::Acting),
    {
        self.fold_programs(programs, ProgramStatus::Acting)
    }

    /// The tokens of the programs on the backend.
    pub fn active_program_tokens(&self, programs: &ProgramRegistry) -> (r: TokenLoad)
        requires
            self@.tokens_fit(programs@),
        ensures
            r.reasoning == program_tokens(programs@, self@.url, ProgramStatus::Reasoning),
            r.acting matches ActingTokens::Whole(acting) && acting == program_tokens(
                programs@,
                self@.url,
                ProgramStatus::Acting,
            ),
    {
        TokenLoad {
            reasoning: self.reasoning_program_tokens(programs),
            acting: ActingTokens::Whole(self.acting_program_tokens(programs)),
        }
    }

    /// The tokens and the ages at `now` of the acting programs on the backend.
    fn acting_ages(&self, programs: &ProgramRegistry, now: u128) -> (r: Vec<(u64, u128)>)
        ensures
            lists_ages(r@, programs@, self@.url, now),
    {
        let entries = programs.entries();
        let mut ages: Vec<(u64, u128)> = Vec::new();
        let ghost mut ids: Seq<Seq<char>> = Seq::empty();
        let mut n: usize = 0;
        while n < entries.len()
            invariant
                n <= entries@.len(),
                lists(entries@, programs@),
                ids.len() == ages@.len(),
                ids.no_duplicates(),
                forall|i: int|
                    0 <= i < ids.len() ==> among_first(entries@, n as int, #[trigger] ids[i])
                        && programs@.contains_key(ids[i]) && counts_for(
                        programs@[ids[i]],
                        self@.url,
                        ProgramStatus::Acting,
                    ) && ages@[i] == (
                        programs@[ids[i]].total_tokens,
                        acting_ms(programs@[ids[i]], now),
                    ),
                forall|j: int|
                    0 <= j < n && counts_for(
                        entries@[j].1@,
                        self@.url,
                        ProgramStatus::Acting,
                    ) ==> ids.contains((#[trigger] entries@[j]).0@),
            decreases entries@.len() - n,
        {
            let program = &entries[n].1;
            let ghost before = ids;
            if optional_is(&program.backend_url, &self.url) && program.status
                == ProgramStatus::Acting {
                let age: u128 = match program.acting_since_ms {
                    Some(since) => if since <= now {
                        now - since
                    } else {
                        0
                    },
                    None => 0,
                };
                ages.push((program.total_tokens, age));
                proof {
                    let id = entries@[n as int].0@;
                    assert(programs@.contains_key(id));
                    assert(!before.contains(id)) by {
                        if before.contains(id) {
                            let i = choose|i: int| 0 <= i < before.len() && before[i] == id;
                            assert(among_first(entries@, n as int, before[i]));
                            let j = choose|j: int|
                                0 <= j < n && (#[trigger] entries@[j]).0@ == before[i];
                            assert(entries@[j].0@ != entries@[n as int].0@);
                        }
                    }
                    ids = before.push(id);
                    assert(ids[before.len() as int] == id);
                    assert forall|other: Seq<char>| before.contains(other) implies ids.contains(
                        other,
                    ) by {
                        let i = choose|i: int| 0 <= i < before.len() && before[i] == other;
                        assert(ids[i] == other);
                    }
                    assert(entries@[n as int].0@ == id);
                }
            }
            proof {
                assert forall|i: int| 0 <= i < ids.len() implies among_first(
                    entries@,
                    n + 1,
                    #[trigger] ids[i],
                ) by {
                    if i < before.len() {
                        assert(among_first(entries@, n as int, before[i]));
                        let j = choose|j: int|
                            0 <= j < n && (#[trigger] entries@[j]).0@ == before[i];
                        assert(entries@[j].0@ == ids[i]);
                    }
                }
            }
            n = n + 1;
        }
        proof {
            assert forall|id: Seq<char>| #[trigger]
                programs@.contains_key(id) && counts_for(
                    programs@[id],
                    self@.url,
                    ProgramStatus::Acting,
                ) implies ids.contains(id) by {
                let j = choose|j: int| 0 <= j < entries@.len() && (#[trigger] entries@[j]).0@ == id;
                assert(entries@[j].1@ == programs@[id]);
            }
            assert(lists_ages_of(ages@, ids, programs@, self@.url, now));
        }
        ages
    }

    /// The tokens of the programs on the backend at `now`, with the ages of the acting programs
    /// where their tokens decay.
    pub fn active_program_tokens_with_decay_at(
        &self,
        programs: &ProgramRegistry,
        now: u128,
    ) -> (r: TokenLoad)
        requires
            self@.decaying_tokens_fit(programs@),
        ensures
            self@.decaying_load(programs@, now, r),
    {
        if !self.use_acting_token_decay {
            return self.active_program_tokens(programs);
        }
        TokenLoad {
            reasoning: self.reasoning_program_tokens(programs),
            acting: ActingTokens::Aged(self.acting_ages(programs, now)),
        }
    }

    /// The tokens of the programs on the backend now, with the ages of the acting programs where
    /// their tokens decay.
    pub fn active_program_tokens_with_decay(&self, programs: &ProgramRegistry) -> (r: TokenLoad)
        requires
            self@.decaying_tokens_fit(programs@),
        ensures
            exists|now: u128|
                reads_clock_or_zero(now) && #[trigger] self@.decaying_load(programs@, now, r),
    {
        let now: u128 = now_ms();
        let load = self.active_program_tokens_with_decay_at(programs, now);
        assert(self@.decaying_load(programs@, now, load));
        load
    }

    /// The tokens of the programs on the backend with decay, or nothing where those that are added up
    /// exceed 64 bits.
    pub fn checked_decaying_load(&self, programs: &ProgramRegistry, now: u128) -> (r: Option<
        TokenLoad,
    >)
        ensures
            r is Some <==> self@.decaying_tokens_fit(programs@),
            r matches Some(load) ==> self@.decaying_load(programs@, now, load),
    {
        if self.checked_program_tokens(programs, ProgramStatus::Reasoning).is_none() {
            return None;
        }
        if !self.use_acting_token_decay && self.checked_program_tokens(
            programs,
            ProgramStatus::Acting,
        ).is_none() {
            return None;
        }
        Some(self.active_program_tokens_with_decay_at(programs, now))
    }

    /// The tokens of the programs on the backend with and without decay, or nothing where they
    /// exceed 64 bits.
    pub fn checked_program_loads(&self, programs: &ProgramRegistry, now: u128) -> (r: Option<
        (TokenLoad, TokenLoad),
    >)
        ensures
            r is Some <==> self@.tokens_fit(programs@),
            r matches Some((plain, decaying)) ==> {
                &&& plain.reasoning == program_tokens(
                    programs@,
                    self@.url,
                    ProgramStatus::Reasoning,
                )
                &&& plain.acting matches ActingTokens::Whole(acting) && acting == program_tokens(
                    programs@,
                    self@.url,
                    ProgramStatus::Acting,
                )
                &&& self@.decaying_load(programs@, now, decaying)
            },
    {
        if self.checked_program_tokens(programs, ProgramStatus::Reasoning).is_none() {
            return None;
        }
        if self.checked_program_tokens(programs, ProgramStatus::Acting).is_none() {
            return None;
        }
        Some(
            (
                self.active_program_tokens(programs),
                self.active_program_tokens_with_decay_at(programs, now),
            ),
        )
    }

    /// How many programs are bound to the backend.
    pub fn active_program_count(&self, programs: &ProgramRegistry) -> (r: u64)
        ensures
            r == program_count(programs@, self@.url),
    {
        let entries = programs.entries();
        let ghost weight = one_on(self@.url);
        proof {
            a_walk_sums_up(entries@, programs@, weight);
        }
        let mut count: usize = 0;
        let mut n: usize = 0;
        while n < entries.len()
            invariant
                n <= entries@.len(),
                count <= n,
                weight == one_on(self@.url),
                count == sum_of_entries(entries@.take(n as int), weight),
            decreases entries@.len() - n,
        {
            proof {
                one_entry_more(entries@, weight, n as int);
            }
            if optional_is(&entries[n].1.backend_url, &self.url) {
                count = count + 1;
            }
            n = n + 1;
        }
        proof {
            assert(entries@.take(entries@.len() as int) == entries@);
        }
        count as u64
    }

    /// The room that is left when the programs on the backend use `used` tokens.
    pub fn remaining_capacity(&self, programs: &ProgramRegistry, used: u64) -> (r: Option<i64>)
        requires
            self@.remaining_fits(programs@, used),
        ensures
            r == self@.remaining(programs@, used),
    {
        match self.cache_config() {
            Some(config) => {
                let capacity: i64 = signed(config.total_tokens_capacity());
                let buffer: i64 = signed(self.active_program_count(programs) * BUFFER_PER_PROGRAM);
                Some(capacity - signed(used) - buffer)
            },
            None => None,
        }
    }

    /// The room that is left when the programs on the backend use `used_with_decay` tokens.
    pub fn remaining_capacity_with_decay(
        &self,
        programs: &ProgramRegistry,
        used_with_decay: u64,
    ) -> (r: Option<i64>)
        requires
            self@.remaining_fits(programs@, used_with_decay),
        ensures
            r == self@.remaining(programs@, used_with_decay),
    {
        self.remaining_capacity(programs, used_with_decay)
    }

    /// The room that is left when the programs on the backend use `used` tokens, or `None` where it
    /// cannot be worked out within 64 bits.
    pub fn checked_remaining_capacity(&self, programs: &ProgramRegistry, used: u64) -> (r: Option<
        Option<i64>,
    >)
        ensures
            r == if self@.remaining_fits(programs@, used) {
                Some(self@.remaining(programs@, used))
            } else {
                None
            },
    {
        if let Some(config) = self.cache_config() {
            let count: u64 = self.active_program_count(programs);
            if count > u64::MAX / BUFFER_PER_PROGRAM {
                return None;
            }
            let left: i128 = signed(config.total_tokens_capacity()) as i128 - signed(used) as i128;
            if left < i64::MIN as i128 || left > i64::MAX as i128 {
                return None;
            }
            let room: i128 = left - signed(count * BUFFER_PER_PROGRAM) as i128;
            if room < i64::MIN as i128 || room > i64::MAX as i128 {
                return None;
            }
        }
        Some(self.remaining_capacity(programs, used))
    }

    /// Shows the backend. `used` and `used_with_decay` are what its programs use without and with
    /// decay, and `tool_coefficient` is the number that the factor's bit pattern stands for.
    pub fn snapshot(
        &self,
        programs: &ProgramRegistry,
        used: u64,
        used_with_decay: u64,
        tool_coefficient: Value,
    ) -> (r: Value)
        requires
            self@.tokens_fit(programs@),
            self@.remaining_fits(programs@, used),
            self@.remaining_fits(programs@, used_with_decay),
        ensures
            json_of(r) == self@.shown(
                programs@,
                used,
                used_with_decay,
                json_of(tool_coefficient),
            ),
    {
        let mut members = serde_json::Map::new();
        members.insert("url".to_owned(), text_value(self.url.clone()));
        members.insert("active_program_tokens".to_owned(), count_value(used));
        members.insert("active_program_tokens_with_decay".to_owned(), count_value(used_with_decay));
        members.insert(
            "reasoning_program_tokens".to_owned(),
            count_value(self.reasoning_program_tokens(programs)),
        );
        members.insert(
            "acting_program_tokens".to_owned(),
            count_value(self.acting_program_tokens(programs)),
        );
        members.insert(
            "active_program_count".to_owned(),
            count_value(self.active_program_count(programs)),
        );
        members.insert(
            "remaining_capacity".to_owned(),
            room_value(self.remaining_capacity(programs, used)),
        );
        members.insert(
            "remaining_capacity_with_decay".to_owned(),
            room_value(self.remaining_capacity_with_decay(programs, used_with_decay)),
        );
        members.insert("buffer_per_program".to_owned(), count_value(BUFFER_PER_PROGRAM));
        members.insert("tool_coefficient".to_owned(), tool_coefficient);
        members.insert(
            "use_acting_token_decay".to_owned(),
            bool_value(self.use_acting_token_decay),
        );
        members.insert("metrics".to_owned(), self.metrics.snapshot());
        proof {
            assert(members_of(members) =~= self@.shown(
                programs@,
                used,
                used_with_decay,
                json_of(tool_coefficient),
            )->Object_0);
        }
        object_value(members)
    }
}

fn room_value(room: Option<i64>) -> (r: Value)
    ensures
        json_of(r) == room_json(room),
{
    match room {
        Some(n) => signed_value(n),
        None => null_value(),
    }
}

/// Pausing a program frees its place and its tokens on the backend that it was bound to.
pub proof fn pausing_frees_room(
    programs: Map<Seq<char>, ProgramView>,
    id: Seq<char>,
    url: Seq<char>,
    paused: ProgramView,
    status: ProgramStatus,
)
    requires
        programs.dom().finite(),
        programs.contains_key(id),
        programs[id].backend_url == Some(url),
        exists|origin: Option<Seq<char>>, notify: Arc<Notify>, at: Option<u128>|
            paused == #[trigger] programs[id].paused(origin, notify, at),
    ensures
        program_count(programs.insert(id, paused), url) == program_count(programs, url) - 1,
        program_tokens(programs.insert(id, paused), url, status) == program_tokens(
            programs,
            url,
            status,
        ) - if programs[id].status == status {
            programs[id].total_tokens as int
        } else {
            0
        },
{
    one_program_more(programs, one_on(url), id, paused);
    one_program_more(programs, tokens_on(url, status), id, paused);
}

/// Resuming a program that is bound to no backend takes a place and its tokens on the backend that
/// it is resumed on, and none on any other.
pub proof fn resuming_takes_room(
    programs: Map<Seq<char>, ProgramView>,
    id: Seq<char>,
    url: Seq<char>,
    other: Seq<char>,
    status: ProgramStatus,
)
    requires
        programs.dom().finite(),
        programs.contains_key(id),
        programs[id].backend_url is None,
        other != url,
    ensures
        ({
            let after = programs.insert(id, programs[id].resumed(url));
            &&& program_count(after, url) == program_count(programs, url) + 1
            &&& program_tokens(after, url, status) == program_tokens(programs, url, status)
                + if programs[id].status == status {
                programs[id].total_tokens as int
            } else {
                0
            }
            &&& program_count(after, other) == program_count(programs, other)
            &&& program_tokens(after, other, status) == program_tokens(programs, other, status)
        }),
{
    let resumed = programs[id].resumed(url);
    one_program_more(programs, one_on(url), id, resumed);
    one_program_more(programs, tokens_on(url, status), id, resumed);
    one_program_more(programs, one_on(other), id, resumed);
    one_program_more(programs, tokens_on(other, status), id, resumed);
}

/// An answer moves the tokens of a program from those of the reasoning programs to those of the
/// acting ones, with the total that the answer gave; the number of programs stays.
pub proof fn an_answer_moves_tokens(
    programs: Map<Seq<char>, ProgramView>,
    id: Seq<char>,
    url: Seq<char>,
    total_tokens: Option<u64>,
)
    requires
        programs.dom().finite(),
        programs.contains_key(id),
        programs[id].backend_url == Some(url),
        programs[id].status == ProgramStatus::Reasoning,
    ensures
        ({
            let answered = programs[id].answered(total_tokens);
            let after = programs.insert(id, answered);
            &&& program_count(after, url) == program_count(programs, url)
            &&& program_tokens(after, url, ProgramStatus::Reasoning) == program_tokens(
                programs,
                url,
                ProgramStatus::Reasoning,
            ) - programs[id].total_tokens
            &&& program_tokens(after, url, ProgramStatus::Acting) == program_tokens(
                programs,
                url,
                ProgramStatus::Acting,
            ) + answered.total_tokens
        }),
{
    let answered = programs[id].answered(total_tokens);
    one_program_more(programs, one_on(url), id, answered);
    one_program_more(programs, tokens_on(url, ProgramStatus::Reasoning), id, answered);
    one_program_more(programs, tokens_on(url, ProgramStatus::Acting), id, answered);
}

/// Each program less on a backend leaves room for a buffer more, and each token less for a token
/// more, as long as the amounts stay within the range of signed 64-bit integers.
pub proof fn room_follows_load(capacity: u64, used: u64, freed: u64, count: int)
    requires
        freed <= used <= i64::MAX,
        capacity <= i64::MAX,
        1 <= count,
        count * BUFFER_PER_PROGRAM <= i64::MAX,
    ensures
        room_left(capacity, (used - freed) as u64, count - 1) == room_left(capacity, used, count)
            + freed + BUFFER_PER_PROGRAM,
        room_left(capacity, used, count) == capacity - used - count * BUFFER_PER_PROGRAM,
{
}

/// The tokens in a list of ages.
pub open spec fn aged_tokens(ages: Seq<(u64, u128)>) -> int
    decreases ages.len(),
{
    if ages.len() == 0 {
        0
    } else {
        aged_tokens(ages.drop_last()) + ages.last().0
    }
}

proof fn listed_ages_add_up(
    ages: Seq<(u64, u128)>,
    ids: Seq<Seq<char>>,
    programs: Map<Seq<char>, ProgramView>,
    url: Seq<char>,
    now: u128,
)
    requires
        programs.dom().finite(),
        lists_ages_of(ages, ids, programs, url, now),
    ensures
        aged_tokens(ages) == program_tokens(programs, url, ProgramStatus::Acting),
    decreases ages.len(),
{
    let weight = tokens_on(url, ProgramStatus::Acting);
    if ages.len() == 0 {
        assert forall|id: Seq<char>| #[trigger] programs.contains_key(id) implies weight(
            programs[id],
        ) == 0 by {
            if counts_for(programs[id], url, ProgramStatus::Acting) {
                assert(ids.contains(id));
            }
        }
        a_sum_of_nothing_is_nothing(programs, weight);
    } else {
        let id = ids.last();
        let rest = programs.remove(id);
        let front = ids.drop_last();
        assert(programs.contains_key(ids[ids.len() - 1]));
        assert(lists_ages_of(ages.drop_last(), front, rest, url, now)) by {
            assert forall|i: int, j: int|
                0 <= i < front.len() && 0 <= j < front.len() && i != j implies front[i]
                != front[j] by {
                assert(ids[i] != ids[j]);
            }
            assert forall|i: int| 0 <= i < front.len() implies rest.contains_key(
                #[trigger] front[i],
            ) && counts_for(rest[front[i]], url, ProgramStatus::Acting) && ages.drop_last()[i] == (
                rest[front[i]].total_tokens,
                acting_ms(rest[front[i]], now),
            ) by {
                assert(programs.contains_key(ids[i]));
                assert(ids[i] != ids[ids.len() - 1]);
            }
            assert forall|other: Seq<char>| #[trigger]
                rest.contains_key(other) && counts_for(
                    rest[other],
                    url,
                    ProgramStatus::Acting,
                ) implies front.contains(other) by {
                assert(programs.contains_key(other));
                assert(ids.contains(other));
                let k = choose|k: int| 0 <= k < ids.len() && ids[k] == other;
                assert(front[k] == other);
            }
        }
        listed_ages_add_up(ages.drop_last(), front, rest, url, now);
        sum_without(programs, weight, id);
    }
}

/// The tokens in the list of ages that a load has where tokens decay are those of the acting
/// programs on the backend, all together.
pub proof fn ages_add_up(
    ages: Seq<(u64, u128)>,
    programs: Map<Seq<char>, ProgramView>,
    url: Seq<char>,
    now: u128,
)
    requires
        programs.dom().finite(),
        lists_ages(ages, programs, url, now),
    ensures
        aged_tokens(ages) == program_tokens(programs, url, ProgramStatus::Acting),
{
    let ids = choose|ids: Seq<Seq<char>>| #[trigger]
        lists_ages_of(ages, ids, programs, url, now);
    listed_ages_add_up(ages, ids, programs, url, now);
}

/// A program adds to the number of programs on the backend that it is bound to, and on no other, and
/// adds its tokens to those of its status there, and nowhere else; without programs there is
/// nothing.
pub proof fn a_program_counts_where_it_is_bound(
    programs: Map<Seq<char>, ProgramView>,
    id: Seq<char>,
    program: ProgramView,
    url: Seq<char>,
    status: ProgramStatus,
)
    requires
        programs.dom().finite(),
        !programs.contains_key(id),
    ensures
        program_count(Map::empty(), url) == 0,
        program_tokens(Map::empty(), url, status) == 0,
        program.backend_url == Some(url) ==> program_count(programs.insert(id, program), url)
            == program_count(programs, url) + 1,
        program.backend_url != Some(url) ==> program_count(programs.insert(id, program), url)
            == program_count(programs, url),
        program.backend_url == Some(url) && program.status == status ==> program_tokens(
            programs.insert(id, program),
            url,
            status,
        ) == program_tokens(programs, url, status) + program.total_tokens,
        program.backend_url != Some(url) || program.status != status ==> program_tokens(
            programs.insert(id, program),
            url,
            status,
        ) == program_tokens(programs, url, status),
{
    let none = Map::<Seq<char>, ProgramView>::empty();
    a_sum_of_nothing_is_nothing(none, one_on(url));
    a_sum_of_nothing_is_nothing(none, tokens_on(url, status));
    one_program_more(programs, one_on(url), id, program);
    one_program_more(programs, tokens_on(url, status), id, program);
}

/// A program has acted since the time noted for it; it has not acted at all where none is noted or
/// the time lies ahead.
pub proof fn acting_time_leads_to_now(program: ProgramView, now: u128)
    ensures
        program.acting_since_ms is None ==> acting_ms(program, now) == 0,
        program.acting_since_ms matches Some(since) ==> (since <= now ==> since + acting_ms(
            program,
            now,
        ) == now),
        program.acting_since_ms matches Some(since) ==> (since > now ==> acting_ms(program, now)
            == 0),
{
}

/// The room on a backend is known if and only if its cache is. It is the capacity less what is used
/// and less a buffer of 100 for each program on the backend, each of the three read as a signed
/// integer; it can be worked out if and only if the buffers, the first difference and the room stay
/// within 64 bits.
pub proof fn room_is_what_is_left_of_the_capacity(
    backend: BackendView,
    programs: Map<Seq<char>, ProgramView>,
    used: u64,
    config: CacheConfig,
)
    ensures
        backend.metrics.cache_config is None ==> backend.remaining(programs, used) is None
            && backend.remaining_fits(programs, used),
        backend.metrics.cache_config == Some(config) ==> ({
            let count = program_count(programs, backend.url);
            let first = as_signed(config.capacity()) - as_signed(used);
            let room = first - as_signed((count * 100) as u64);
            let fits = 0 <= count * 100 <= u64::MAX && i64::MIN <= first <= i64::MAX && i64::MIN
                <= room <= i64::MAX;
            &&& backend.remaining_fits(programs, used) <==> fits
            &&& fits ==> backend.remaining(programs, used) is Some && backend.remaining(
                programs,
                used,
            )->0 == room
        }),
{
}

/// The tokens on a backend can be added up if and only if those of the reasoning programs and those
/// of the acting ones each fit 64 bits; where acting tokens decay only the former are added up.
pub proof fn tokens_fit_when_their_sums_do(
    backend: BackendView,
    programs: Map<Seq<char>, ProgramView>,
)
    ensures
        ({
            let reasoning = program_tokens(programs, backend.url, ProgramStatus::Reasoning);
            let acting = program_tokens(programs, backend.url, ProgramStatus::Acting);
            &&& backend.tokens_fit(programs) <==> reasoning <= u64::MAX && acting <= u64::MAX
            &&& backend.use_acting_token_decay ==> (backend.decaying_tokens_fit(programs)
                <==> reasoning <= u64::MAX)
            &&& !backend.use_acting_token_decay ==> (backend.decaying_tokens_fit(programs)
                <==> reasoning <= u64::MAX && acting <= u64::MAX)
        }),
{
}

/// A load holds the tokens of the reasoning programs on the backend, and those of the acting ones:
/// together where tokens do not decay, and where they do in a list that adds up to the same, with an
/// entry for each acting program that holds its tokens and how long it has acted.
pub proof fn a_load_holds_all_tokens(
    backend: BackendView,
    programs: Map<Seq<char>, ProgramView>,
    now: u128,
    load: TokenLoad,
    id: Seq<char>,
)
    requires
        programs.dom().finite(),
        backend.decaying_load(programs, now, load),
    ensures
        load.reasoning == program_tokens(programs, backend.url, ProgramStatus::Reasoning),
        load.acting is Aged <==> backend.use_acting_token_decay,
        load.acting matches ActingTokens::Whole(acting) ==> acting == program_tokens(
            programs,
            backend.url,
            ProgramStatus::Acting,
        ),
        load.acting matches ActingTokens::Aged(ages) ==> aged_tokens(ages@) == program_tokens(
            programs,
            backend.url,
            ProgramStatus::Acting,
        ),
        load.acting matches ActingTokens::Aged(ages) ==> (programs.contains_key(id)
            && programs[id].backend_url == Some(backend.url) && programs[id].status
            == ProgramStatus::Acting ==> ages@.contains(
            (programs[id].total_tokens, acting_ms(programs[id], now)),
        )),
{
    if let ActingTokens::Aged(ages) = load.acting {
        ages_add_up(ages@, programs, backend.url, now);
        let ids = choose|ids: Seq<Seq<char>>| #[trigger]
            lists_ages_of(ages@, ids, programs, backend.url, now);
        if programs.contains_key(id) && counts_for(
            programs[id],
            backend.url,
            ProgramStatus::Acting,
        ) {
            assert(ids.contains(id));
            let k = choose|k: int| 0 <= k < ids.len() && ids[k] == id;
            assert(programs.contains_key(ids[k]));
            assert(ages@[k] == (programs[id].total_tokens, acting_ms(programs[id], now)));
        }
    }
}

proof fn shown_names_differ()
    ensures
        ({
            let names = seq![
                "url"@,
                "metrics"@,
                "tool_coefficient"@,
                "remaining_capacity"@,
                "buffer_per_program"@,
                "active_program_count"@,
                "acting_program_tokens"@,
                "active_program_tokens"@,
                "use_acting_token_decay"@,
                "reasoning_program_tokens"@,
                "remaining_capacity_with_decay"@,
                "active_program_tokens_with_decay"@,
            ];
            names.no_duplicates()
        }),
{
    reveal_strlit("url");
    reveal_strlit("metrics");
    reveal_strlit("tool_coefficient");
    reveal_strlit("remaining_capacity");
    reveal_strlit("buffer_per_program");
    reveal_strlit("active_program_count");
    reveal_strlit("acting_program_tokens");
    reveal_strlit("active_program_tokens");
    reveal_strlit("use_acting_token_decay");
    reveal_strlit("reasoning_program_tokens");
    reveal_strlit("remaining_capacity_with_decay");
    reveal_strlit("active_program_tokens_with_decay");
    assert("url"@.len() == 3 && "metrics"@.len() == 7 && "tool_coefficient"@.len() == 16);
    assert("remaining_capacity"@.len() == 18 && "buffer_per_program"@.len() == 18);
    assert("remaining_capacity"@[0] == 'r' && "buffer_per_program"@[0] == 'b');
    assert("active_program_count"@.len() == 20);
    assert("acting_program_tokens"@.len() == 21 && "active_program_tokens"@.len() == 21);
    assert("acting_program_tokens"@[4] == 'n' && "active_program_tokens"@[4] == 'v');
    assert("use_acting_token_decay"@.len() == 22 && "reasoning_program_tokens"@.len() == 24);
    assert("remaining_capacity_with_decay"@.len() == 29);
    assert("active_program_tokens_with_decay"@.len() == 32);
}

/// A backend is shown whole: under each name stands the amount of that name and no other.
pub proof fn a_backend_is_shown_whole(
    backend: BackendView,
    programs: Map<Seq<char>, ProgramView>,
    used: u64,
    used_with_decay: u64,
    tool_coefficient: Json,
)
    requires
        backend.tokens_fit(programs),
        0 <= program_count(programs, backend.url) <= u64::MAX,
        backend.remaining_fits(programs, used),
        backend.remaining_fits(programs, used_with_decay),
    ensures
        backend.shown(programs, used, used_with_decay, tool_coefficient) is Object,
        ({
            let members = backend.shown(
                programs,
                used,
                used_with_decay,
                tool_coefficient,
            )->Object_0;
            let reasoning = program_tokens(programs, backend.url, ProgramStatus::Reasoning);
            let acting = program_tokens(programs, backend.url, ProgramStatus::Acting);
            let room = backend.remaining(programs, used);
            let room_with_decay = backend.remaining(programs, used_with_decay);
            &&& members.dom().len() == 12
            &&& members["url"@] == Json::Text(backend.url)
            &&& members["active_program_tokens"@] == Json::Number(JsonNumber::Unsigned(used))
            &&& members["active_program_tokens_with_decay"@] == Json::Number(
                JsonNumber::Unsigned(used_with_decay),
            )
            &&& members["reasoning_program_tokens"@] == Json::Number(
                JsonNumber::Unsigned(reasoning as u64),
            )
            &&& members["acting_program_tokens"@] == Json::Number(
                JsonNumber::Unsigned(acting as u64),
            )
            &&& members["active_program_count"@] == Json::Number(
                JsonNumber::Unsigned(program_count(programs, backend.url) as u64),
            )
            &&& room is None ==> members["remaining_capacity"@] == Json::Null
            &&& room matches Some(n) ==> members["remaining_capacity"@] == signed_json(n as int)
            &&& room_with_decay is None ==> members["remaining_capacity_with_decay"@] == Json::Null
            &&& room_with_decay matches Some(n) ==> members["remaining_capacity_with_decay"@]
                == signed_json(n as int)
            &&& members["buffer_per_program"@] == Json::Number(JsonNumber::Unsigned(100))
            &&& members["tool_coefficient"@] == tool_coefficient
            &&& members["use_acting_token_decay"@] == Json::Bool(backend.use_acting_token_decay)
            &&& members["metrics"@] == Json::Object(backend.metrics.members())
        }),
{
    shown_names_differ();
    let names = seq![
        "url"@,
        "metrics"@,
        "tool_coefficient"@,
        "remaining_capacity"@,
        "buffer_per_program"@,
        "active_program_count"@,
        "acting_program_tokens"@,
        "active_program_tokens"@,
        "use_acting_token_decay"@,
        "reasoning_program_tokens"@,
        "remaining_capacity_with_decay"@,
        "active_program_tokens_with_decay"@,
    ];
    let members = backend.shown(programs, used, used_with_decay, tool_coefficient)->Object_0;
    names.unique_seq_to_set();
    assert(members.dom() =~= names.to_set()) by {
        assert forall|key: Seq<char>| members.dom().contains(key) implies names.contains(key) by {
            assert(names[0] == "url"@ && names[1] == "metrics"@ && names[2] == "tool_coefficient"@);
            assert(names[3] == "remaining_capacity"@ && names[4] == "buffer_per_program"@);
            assert(names[5] == "active_program_count"@ && names[6] == "acting_program_tokens"@);
            assert(names[7] == "active_program_tokens"@ && names[8] == "use_acting_token_decay"@);
            assert(names[9] == "reasoning_program_tokens"@);
            assert(names[10] == "remaining_capacity_with_decay"@);
            assert(names[11] == "active_program_tokens_with_decay"@);
        }
    }
}

} // verus!
