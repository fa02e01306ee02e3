//! Token usage as a completion response reports it.

use crate::json::{field, json_of, parse_bytes, parsed_bytes, Json, JsonNumber};
use serde_json::Value;
use vstd::prelude::*;

verus! {

/// The token counts of one completion, each absent where the response does not give it.
#[derive(Debug, Clone, Copy, PartialEq, Eq)]
pub struct UsageTokens {
    pub prompt_tokens: Option<u64>,
    pub completion_tokens: Option<u64>,
    pub total_tokens: Option<u64>,
    pub cached_tokens: Option<u64>,
}

impl Default for UsageTokens {
    fn default() -> (r: UsageTokens)
        ensures
            r == (UsageTokens {
                prompt_tokens: None,
                completion_tokens: None,
                total_tokens: None,
                cached_tokens: None,
            }),
    {
        UsageTokens {
            prompt_tokens: None,
            completion_tokens: None,
            total_tokens: None,
            cached_tokens: None,
        }
    }
}

impl UsageTokens {
    pub fn total_tokens(&self) -> (r: Option<u64>)
        ensures
            r == self.total_tokens,
    {
        self.total_tokens
    }
}

/// The unsigned integer under `key`, if there is one.
pub open spec fn count_under(document: Json, key: Seq<char>) -> Option<u64> {
    match document.field(key) {
        Some(value) => value.unsigned(),
        None => None,
    }
}

/// The cached-token count of a usage object: `cached_tokens` where that member exists, whatever it
/// holds, and otherwise `prompt_tokens_details.cached_tokens`.
pub open spec fn cached_count(usage: Json) -> Option<u64> {
    match usage.field("cached_tokens"@) {
        Some(value) => value.unsigned(),
        None => match usage.field("prompt_tokens_details"@) {
            Some(details) => count_under(details, "cached_tokens"@),
            None => None,
        },
    }
}

/// The usage that a response document reports; nothing without a `usage` member.
pub open spec fn usage_of(payload: Json) -> Option<UsageTokens> {
    match payload.field("usage"@) {
        Some(usage) => Some(
            UsageTokens {
                prompt_tokens: count_under(usage, "prompt_tokens"@),
                completion_tokens: count_under(usage, "completion_tokens"@),
                total_tokens: count_under(usage, "total_tokens"@),
                cached_tokens: cached_count(usage),
            },
        ),
        None => None,
    }
}

/// The usage in a response body; nothing where the body is not JSON.
pub open spec fn usage_of_body(parsed: Option<Json>) -> Option<UsageTokens> {
    match parsed {
        Some(payload) => usage_of(payload),
        None => None,
    }
}

fn count_field(value: &Value, key: &str) -> (r: Option<u64>)
    ensures
        r == count_under(json_of(*value), key@),
{
    match field(value, key) {
        Some(count) => count.as_u64(),
        None => None,
    }
}

/// Reads the usage of a response document.
pub fn extract_usage(payload: &Value) -> (r: Option<UsageTokens>)
    ensures
        r == usage_of(json_of(*payload)),
{
    match field(payload, "usage") {
        Some(usage) => {
            let cached_tokens = match field(usage, "cached_tokens") {
                Some(count) => count.as_u64(),
                None => match field(usage, "prompt_tokens_details") {
                    Some(details) => count_field(details, "cached_tokens"),
                    None => None,
                },
            };
            Some(
                UsageTokens {
                    prompt_tokens: count_field(usage, "prompt_tokens"),
                    completion_tokens: count_field(usage, "completion_tokens"),
                    total_tokens: count_field(usage, "total_tokens"),
                    cached_tokens,
                },
            )
        },
        None => None,
    }
}

/// Reads the usage of a response body.
pub fn extract_usage_from_bytes(bytes: &[u8]) -> (r: Option<UsageTokens>)
    ensures
        r == usage_of_body(parsed_bytes(bytes@)),
{
    match parse_bytes(bytes) {
        Ok(payload) => extract_usage(&payload),
        Err(_) => None,
    }
}

/// A count is read if and only if the member of its name is an unsigned integer, and it is that
/// integer, whatever other members the usage has. Where the response has no usage nothing is read.
pub proof fn counts_are_read_by_their_names(
    payload: Map<Seq<char>, Json>,
    usage: Map<Seq<char>, Json>,
    n: u64,
)
    requires
        payload.contains_key("usage"@),
        payload["usage"@] == Json::Object(usage),
    ensures
        ({
            let number = Json::Number(JsonNumber::Unsigned(n));
            let read = usage_of(Json::Object(payload));
            &&& read is Some
            &&& read->0.total_tokens == Some(n) <==> usage.contains_key("total_tokens"@)
                && usage["total_tokens"@] == number
            &&& read->0.prompt_tokens == Some(n) <==> usage.contains_key("prompt_tokens"@)
                && usage["prompt_tokens"@] == number
            &&& read->0.completion_tokens == Some(n) <==> usage.contains_key("completion_tokens"@)
                && usage["completion_tokens"@] == number
        }),
{
}

/// The cached tokens are read from the member of that name where it exists, and only otherwise from
/// the details of the prompt.
pub proof fn cached_tokens_are_read_from_the_usage_first(
    payload: Map<Seq<char>, Json>,
    usage: Map<Seq<char>, Json>,
    details: Map<Seq<char>, Json>,
    n: u64,
)
    requires
        payload.contains_key("usage"@),
        payload["usage"@] == Json::Object(usage),
    ensures
        ({
            let number = Json::Number(JsonNumber::Unsigned(n));
            let read = usage_of(Json::Object(payload));
            let name = "prompt_tokens_details"@;
            &&& read is Some
            &&& usage.contains_key("cached_tokens"@) ==> (read->0.cached_tokens == Some(n)
                <==> usage["cached_tokens"@] == number)
            &&& !usage.contains_key("cached_tokens"@) && usage.contains_key(name) && usage[name]
                == Json::Object(details) ==> (read->0.cached_tokens == Some(n)
                <==> details.contains_key("cached_tokens"@) && details["cached_tokens"@] == number)
            &&& !usage.contains_key("cached_tokens"@) && (!usage.contains_key(name) || !(
            usage[name] is Object)) ==> read->0.cached_tokens is None
        }),
{
}

/// Two usages that agree on a count are read alike there, however they differ elsewhere.
pub proof fn other_members_change_no_count(
    first: Map<Seq<char>, Json>,
    second: Map<Seq<char>, Json>,
    key: Seq<char>,
)
    requires
        first.contains_key("usage"@),
        second.contains_key("usage"@),
        first["usage"@].field(key) == second["usage"@].field(key),
    ensures
        ({
            let a = usage_of(Json::Object(first))->0;
            let b = usage_of(Json::Object(second))->0;
            &&& key == "total_tokens"@ ==> a.total_tokens == b.total_tokens
            &&& key == "prompt_tokens"@ ==> a.prompt_tokens == b.prompt_tokens
            &&& key == "completion_tokens"@ ==> a.completion_tokens == b.completion_tokens
            &&& key == "cached_tokens"@ && first["usage"@].field(key) is Some ==> a.cached_tokens
                == b.cached_tokens
        }),
{
}

/// There is a usage if and only if the response is an object with that member; one that is no
/// object gives no count; and a body that is not JSON gives no usage.
pub proof fn usage_is_a_member_of_the_response(payload: Json)
    ensures
        usage_of(payload) is Some <==> (payload matches Json::Object(members)
            && members.contains_key("usage"@)),
        (payload matches Json::Object(members) && members.contains_key("usage"@) && !(
        members["usage"@] is Object)) ==> usage_of(payload) == Some(
            UsageTokens {
                prompt_tokens: None,
                completion_tokens: None,
                total_tokens: None,
                cached_tokens: None,
            },
        ),
        usage_of_body(Some(payload)) == usage_of(payload),
        usage_of_body(None) is None,
{
}

} // verus!
