//! Timing and token counts of a program's current request.

use crate::clock::{now_ms, reads_clock_or_zero};
use crate::numbers::capped_sum;
use crate::usage::UsageTokens;
use vstd::prelude::*;

verus! {

/// When the stages of a program's current request were reached, and what the request used.
#[derive(Debug)]
pub struct ProfileState {
    pub program_id: String,
    pub request_arrive_ms: Option<u128>,
    pub request_start_ms: Option<u128>,
    pub first_token_ms: Option<u128>,
    pub request_end_ms: Option<u128>,
    pub token_count: u64,
    pub prompt_tokens: u64,
    pub completion_tokens: u64,
    pub cached_tokens: u64,
}

/// The value of a profile.
pub struct ProfileView {
    pub program_id: Seq<char>,
    pub request_arrive_ms: Option<u128>,
    pub request_start_ms: Option<u128>,
    pub first_token_ms: Option<u128>,
    pub request_end_ms: Option<u128>,
    pub token_count: u64,
    pub prompt_tokens: u64,
    pub completion_tokens: u64,
    pub cached_tokens: u64,
}

impl View for ProfileState {
    type V = ProfileView;

    open spec fn view(&self) -> ProfileView {
        ProfileView {
            program_id: self.program_id@,
            request_arrive_ms: self.request_arrive_ms,
            request_start_ms: self.request_start_ms,
            first_token_ms: self.first_token_ms,
            request_end_ms: self.request_end_ms,
            token_count: self.token_count,
            prompt_tokens: self.prompt_tokens,
            completion_tokens: self.completion_tokens,
            cached_tokens: self.cached_tokens,
        }
    }
}

/// The time from `earlier` to `later`, not below zero; nothing while either is missing.
pub open spec fn span_ms(earlier: Option<u128>, later: Option<u128>) -> Option<u128> {
    match (earlier, later) {
        (Some(from), Some(to)) => Some(
            if to >= from {
                (to - from) as u128
            } else {
                0
            },
        ),
        _ => None,
    }
}

pub open spec fn or_zero(count: Option<u64>) -> u64 {
    match count {
        Some(n) => n,
        None => 0,
    }
}

impl ProfileView {
    /// A profile with nothing reached yet.
    pub open spec fn blank(program_id: Seq<char>) -> ProfileView {
        ProfileView {
            program_id,
            request_arrive_ms: None,
            request_start_ms: None,
            first_token_ms: None,
            request_end_ms: None,
            token_count: 0,
            prompt_tokens: 0,
            completion_tokens: 0,
            cached_tokens: 0,
        }
    }

    /// A request arrived at `now`: what was known of the one before is forgotten.
    pub open spec fn arrived(self, now: u128) -> ProfileView {
        ProfileView {
            request_arrive_ms: Some(now),
            ..ProfileView::blank(self.program_id)
        }
    }

    pub open spec fn started(self, now: u128) -> ProfileView {
        ProfileView { request_start_ms: Some(now), ..self }
    }

    /// The first token came at `now`, unless one came before.
    pub open spec fn first_token_seen(self, now: u128) -> ProfileView {
        if self.first_token_ms is None {
            ProfileView { first_token_ms: Some(now), ..self }
        } else {
            self
        }
    }

    pub open spec fn tokens_added(self, delta_tokens: u64) -> ProfileView {
        ProfileView { token_count: capped_sum(self.token_count, delta_tokens), ..self }
    }

    /// The request ended at `now`. Reported usage replaces the counts: a missing count is zero, and
    /// a missing total is the sum of prompt and completion.
    pub open spec fn ended(self, now: u128, usage: Option<UsageTokens>) -> ProfileView {
        match usage {
            Some(usage) => ProfileView {
                request_end_ms: Some(now),
                prompt_tokens: or_zero(usage.prompt_tokens),
                completion_tokens: or_zero(usage.completion_tokens),
                cached_tokens: or_zero(usage.cached_tokens),
                token_count: match usage.total_tokens {
                    Some(total) => total,
                    None => capped_sum(
                        or_zero(usage.prompt_tokens),
                        or_zero(usage.completion_tokens),
                    ),
                },
                ..self
            },
            None => ProfileView { request_end_ms: Some(now), ..self },
        }
    }
}

fn count_or_zero(count: Option<u64>) -> (r: u64)
    ensures
        r == or_zero(count),
{
    match count {
        Some(n) => n,
        None => 0,
    }
}

impl Clone for ProfileState {
    fn clone(&self) -> (r: ProfileState)
        ensures
            r@ == self@,
    {
        ProfileState {
            program_id: self.program_id.clone(),
            request_arrive_ms: self.request_arrive_ms,
            request_start_ms: self.request_start_ms,
            first_token_ms: self.first_token_ms,
            request_end_ms: self.request_end_ms,
            token_count: self.token_count,
            prompt_tokens: self.prompt_tokens,
            completion_tokens: self.completion_tokens,
            cached_tokens: self.cached_tokens,
        }
    }
}

impl Default for ProfileState {
    fn default() -> (r: ProfileState)
        ensures
            r@ == ProfileView::blank(Seq::empty()),
    {
        ProfileState {
            program_id: String::new(),
            request_arrive_ms: None,
            request_start_ms: None,
            first_token_ms: None,
            request_end_ms: None,
            token_count: 0,
            prompt_tokens: 0,
            completion_tokens: 0,
            cached_tokens: 0,
        }
    }
}

impl ProfileState {
    pub fn new(program_id: &str) -> (r: ProfileState)
        ensures
            r@ == ProfileView::blank(program_id@),
    {
        let mut profile = ProfileState::default();
        profile.program_id = program_id.to_owned();
        profile
    }

    /// Records the arrival of a request at the given time.
    pub fn on_request_arrive_at(&mut self, now: u128)
        ensures
            final(self)@ == old(self)@.arrived(now),
    {
        self.request_arrive_ms = Some(now);
        self.request_start_ms = None;
        self.first_token_ms = None;
        self.request_end_ms = None;
        self.token_count = 0;
        self.prompt_tokens = 0;
        self.completion_tokens = 0;
        self.cached_tokens = 0;
    }

    /// Records the arrival of a request.
    pub fn on_request_arrive(&mut self)
        ensures
            final(self)@.request_arrive_ms is Some,
            final(self)@ == old(self)@.arrived(final(self)@.request_arrive_ms->0),
            reads_clock_or_zero(final(self)@.request_arrive_ms->0),
    {
        self.on_request_arrive_at(now_ms());
    }

    /// Records that the request was sent on at the given time.
    pub fn on_request_start_at(&mut self, now: u128)
        ensures
            final(self)@ == old(self)@.started(now),
    {
        self.request_start_ms = Some(now);
    }

    /// Records that the request was sent on.
    pub fn on_request_start(&mut self)
        ensures
            final(self)@.request_start_ms is Some,
            final(self)@ == old(self)@.started(final(self)@.request_start_ms->0),
            reads_clock_or_zero(final(self)@.request_start_ms->0),
    {
        self.on_request_start_at(now_ms());
    }

    /// Records the first token at the given time, unless one was recorded before.
    pub fn on_first_token_at(&mut self, now: u128)
        ensures
            final(self)@ == old(self)@.first_token_seen(now),
    {
        if self.first_token_ms.is_none() {
            self.first_token_ms = Some(now);
        }
    }

    /// Records the first token, unless one was recorded before.
    pub fn on_first_token(&mut self)
        ensures
            final(self)@.first_token_ms is Some,
            final(self)@ == old(self)@.first_token_seen(final(self)@.first_token_ms->0),
            old(self)@.first_token_ms is None ==> reads_clock_or_zero(
                final(self)@.first_token_ms->0,
            ),
    {
        if self.first_token_ms.is_none() {
            self.on_first_token_at(now_ms());
        }
    }

    /// Counts tokens that came in.
    pub fn on_token(&mut self, delta_tokens: u64)
        ensures
            final(self)@ == old(self)@.tokens_added(delta_tokens),
    {
        self.token_count = self.token_count.saturating_add(delta_tokens);
    }

    /// Records the end of the request at the given time, with its reported usage.
    pub fn on_request_end_at(&mut self, now: u128, usage: Option<UsageTokens>)
        ensures
            final(self)@ == old(self)@.ended(now, usage),
    {
        self.request_end_ms = Some(now);
        if let Some(usage) = usage {
            self.prompt_tokens = count_or_zero(usage.prompt_tokens);
            self.completion_tokens = count_or_zero(usage.completion_tokens);
            self.cached_tokens = count_or_zero(usage.cached_tokens);
            self.token_count = match usage.total_tokens {
                Some(total) => total,
                None => self.prompt_tokens.saturating_add(self.completion_tokens),
            };
        }
    }

    /// Records the end of the request, with its reported usage.
    pub fn on_request_end(&mut self, usage: Option<UsageTokens>)
        ensures
            final(self)@.request_end_ms is Some,
            final(self)@ == old(self)@.ended(final(self)@.request_end_ms->0, usage),
            reads_clock_or_zero(final(self)@.request_end_ms->0),
    {
        self.on_request_end_at(now_ms(), usage);
    }

    /// The time from sending the request on to its first token.
    pub fn first_token_time_ms(&self) -> (r: Option<u128>)
        ensures
            r == span_ms(self@.request_start_ms, self@.first_token_ms),
    {
        match (self.first_token_ms, self.request_start_ms) {
            (Some(first), Some(start)) => Some(first.saturating_sub(start)),
            _ => None,
        }
    }

    /// The time from the first token to the end of the request.
    pub fn decode_time_ms(&self) -> (r: Option<u128>)
        ensures
            r == span_ms(self@.first_token_ms, self@.request_end_ms),
    {
        match (self.request_end_ms, self.first_token_ms) {
            (Some(end), Some(first)) => Some(end.saturating_sub(first)),
            _ => None,
        }
    }
}

/// Within a request the first token's time is recorded once: later tokens do not move it.
pub proof fn first_token_is_recorded_once(profile: ProfileView, first: u128, later: u128)
    ensures
        profile.first_token_seen(first).first_token_seen(later) == profile.first_token_seen(first),
{
}

/// A new arrival makes the profile what it would have been for a fresh program: nothing of the
/// request before is left.
pub proof fn arrival_forgets_the_request_before(profile: ProfileView, now: u128)
    ensures
        profile.arrived(now) == ProfileView::blank(profile.program_id).arrived(now),
        span_ms(profile.arrived(now).request_start_ms, profile.arrived(now).first_token_ms) is None,
        span_ms(profile.arrived(now).first_token_ms, profile.arrived(now).request_end_ms) is None,
{
}

/// A request that goes through all its stages gets both times: from its start to its first token,
/// and from its first token to its end, whatever tokens were counted in between.
pub proof fn a_full_request_is_timed(
    profile: ProfileView,
    arrive: u128,
    start: u128,
    first: u128,
    delta_tokens: u64,
    end: u128,
    usage: Option<UsageTokens>,
)
    requires
        start <= first <= end,
    ensures
        ({
            let done = profile.arrived(arrive).started(start).first_token_seen(first).tokens_added(
                delta_tokens,
            ).ended(end, usage);
            &&& span_ms(done.request_start_ms, done.first_token_ms) == Some((first - start) as u128)
            &&& span_ms(done.first_token_ms, done.request_end_ms) == Some((end - first) as u128)
        }),
{
}

/// A new profile has its program's id, no stage reached and no tokens.
pub proof fn a_blank_profile_is_empty(program_id: Seq<char>)
    ensures
        ({
            let blank = ProfileView::blank(program_id);
            &&& blank.program_id == program_id
            &&& blank.request_arrive_ms is None && blank.request_start_ms is None
            &&& blank.first_token_ms is None && blank.request_end_ms is None
            &&& blank.token_count == 0 && blank.prompt_tokens == 0
            &&& blank.completion_tokens == 0 && blank.cached_tokens == 0
        }),
{
}

/// Two profiles are of the same program and agree on all its token counts.
pub open spec fn same_counts(a: ProfileView, b: ProfileView) -> bool {
    &&& a.program_id == b.program_id
    &&& a.token_count == b.token_count
    &&& a.prompt_tokens == b.prompt_tokens
    &&& a.completion_tokens == b.completion_tokens
    &&& a.cached_tokens == b.cached_tokens
}

/// Each stage of a request is stamped with the time at which it is reached, and no other stamp and
/// no count is touched; only an arrival forgets what was there, and only the first of the first
/// tokens is stamped.
pub proof fn stages_are_stamped(profile: ProfileView, now: u128)
    ensures
        ({
            let arrived = profile.arrived(now);
            &&& arrived.program_id == profile.program_id
            &&& arrived.request_arrive_ms == Some(now)
            &&& arrived.request_start_ms is None && arrived.first_token_ms is None
            &&& arrived.request_end_ms is None
            &&& arrived.token_count == 0 && arrived.prompt_tokens == 0
            &&& arrived.completion_tokens == 0 && arrived.cached_tokens == 0
        }),
        ({
            let started = profile.started(now);
            &&& same_counts(started, profile)
            &&& started.request_start_ms == Some(now)
            &&& started.request_arrive_ms == profile.request_arrive_ms
            &&& started.first_token_ms == profile.first_token_ms
            &&& started.request_end_ms == profile.request_end_ms
        }),
        ({
            let seen = profile.first_token_seen(now);
            &&& same_counts(seen, profile)
            &&& profile.first_token_ms is None ==> seen.first_token_ms == Some(now)
            &&& profile.first_token_ms is Some ==> seen.first_token_ms == profile.first_token_ms
            &&& seen.request_arrive_ms == profile.request_arrive_ms
            &&& seen.request_start_ms == profile.request_start_ms
            &&& seen.request_end_ms == profile.request_end_ms
        }),
{
}

/// Tokens that come in are added to the count, up to the largest count there is, and change nothing
/// else.
pub proof fn tokens_are_added(profile: ProfileView, delta_tokens: u64)
    ensures
        ({
            let added = profile.tokens_added(delta_tokens);
            &&& profile.token_count + delta_tokens <= u64::MAX ==> added.token_count
                == profile.token_count + delta_tokens
            &&& profile.token_count + delta_tokens > u64::MAX ==> added.token_count == u64::MAX
            &&& added == (ProfileView { token_count: added.token_count, ..profile })
        }),
{
}

/// The end of a request is stamped. Without usage no count changes. With usage each count is the
/// reported one, or zero where none is reported, whatever was counted before; a total that is not
/// reported is prompt and completion together, up to the largest count there is.
pub proof fn an_end_takes_the_reported_counts(profile: ProfileView, now: u128, usage: UsageTokens)
    ensures
        profile.ended(now, None) == (ProfileView { request_end_ms: Some(now), ..profile }),
        ({
            let ended = profile.ended(now, Some(usage));
            let sum = ended.prompt_tokens + ended.completion_tokens;
            &&& ended.request_end_ms == Some(now)
            &&& ended.program_id == profile.program_id
            &&& ended.request_arrive_ms == profile.request_arrive_ms
            &&& ended.request_start_ms == profile.request_start_ms
            &&& ended.first_token_ms == profile.first_token_ms
            &&& usage.prompt_tokens is Some ==> usage.prompt_tokens == Some(ended.prompt_tokens)
            &&& usage.prompt_tokens is None ==> ended.prompt_tokens == 0
            &&& usage.completion_tokens is Some ==> usage.completion_tokens == Some(
                ended.completion_tokens,
            )
            &&& usage.completion_tokens is None ==> ended.completion_tokens == 0
            &&& usage.cached_tokens is Some ==> usage.cached_tokens == Some(ended.cached_tokens)
            &&& usage.cached_tokens is None ==> ended.cached_tokens == 0
            &&& usage.total_tokens is Some ==> usage.total_tokens == Some(ended.token_count)
            &&& usage.total_tokens is None && sum <= u64::MAX ==> ended.token_count == sum
            &&& usage.total_tokens is None && sum > u64::MAX ==> ended.token_count == u64::MAX
        }),
{
}

/// A time span is there if and only if both its ends are. It leads from the earlier end to the later
/// one, and is zero where they stand the other way round.
pub proof fn a_span_leads_from_end_to_end(earlier: u128, later: u128, other: Option<u128>)
    ensures
        span_ms(Some(earlier), Some(later)) is Some,
        earlier <= later ==> earlier + span_ms(Some(earlier), Some(later))->0 == later,
        later < earlier ==> span_ms(Some(earlier), Some(later)) == Some(0u128),
        span_ms(None, other) is None,
        span_ms(other, None) is None,
{
}

/// The value of a profile is made of its fields.
pub proof fn a_profile_is_its_fields(profile: ProfileState)
    ensures
        profile@.program_id == profile.program_id@,
        profile@.request_arrive_ms == profile.request_arrive_ms,
        profile@.request_start_ms == profile.request_start_ms,
        profile@.first_token_ms == profile.first_token_ms,
        profile@.request_end_ms == profile.request_end_ms,
        profile@.token_count == profile.token_count,
        profile@.prompt_tokens == profile.prompt_tokens,
        profile@.completion_tokens == profile.completion_tokens,
        profile@.cached_tokens == profile.cached_tokens,
{
}

} // verus!
