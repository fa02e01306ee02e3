//! What is sent to a worker for a chat completion, and what is answered for the worker's reply.

use crate::json::{
    copy_document, json_of, member_mut, object_mut, parsed_bytes, remove_member, Json,
};
use crate::stream::{finishes, Standing, StreamEvent, StreamView, StreamingProgramFinisher};
use crate::text::{
    joined, trim_end_of, trim_end_of_takes_only_the_end, without_trailing_slashes,
};
use crate::usage::{extract_usage_from_bytes, usage_of, usage_of_body, UsageTokens};
use serde_json::Value;
use vstd::prelude::*;
use vstd::string::StrSliceExecFns;
use vstd::utf8::encode_utf8;

verus! {

/// The members of a request without `program_id`, at the top and in `extra_body`; an `extra_body`
/// with nothing left in it goes too.
pub open spec fn stripped(members: Map<Seq<char>, Json>) -> Map<Seq<char>, Json> {
    let rest = members.remove("program_id"@);
    match Json::Object(rest).field("extra_body"@) {
        Some(Json::Object(extra)) => {
            let left = extra.remove("program_id"@);
            if left.is_empty() {
                rest.remove("extra_body"@)
            } else {
                rest.insert("extra_body"@, Json::Object(left))
            }
        },
        _ => rest,
    }
}

/// A request without its program id; a document that is no object stays as it is.
pub open spec fn without_program_id(document: Json) -> Json {
    match document {
        Json::Object(members) => Json::Object(stripped(members)),
        _ => document,
    }
}

/// Where a worker takes chat completions.
pub open spec fn chat_url(worker_url: Seq<char>) -> Seq<char> {
    trim_end_of(worker_url, '/') + "/v1/chat/completions"@
}

/// Where a worker takes chat completions.
pub fn chat_completions_url(worker_url: &str) -> (url: String)
    ensures
        url@ == chat_url(worker_url@),
{
    joined(&without_trailing_slashes(worker_url), "/v1/chat/completions")
}

/// Takes the program id out of a request.
pub fn remove_program_id(payload: &mut Value)
    ensures
        json_of(*final(payload)) == without_program_id(json_of(*old(payload))),
{
    match object_mut(payload) {
        Some(members) => {
            remove_member(members, "program_id");
            let ghost rest = crate::json::members_of(*members);
            let emptied = match member_mut(members, "extra_body") {
                Some(value) => match object_mut(value) {
                    Some(extra) => {
                        remove_member(extra, "program_id");
                        extra.is_empty()
                    },
                    None => false,
                },
                None => false,
            };
            if emptied {
                remove_member(members, "extra_body");
            }
            proof {
                let key = "extra_body"@;
                if rest.contains_key(key) {
                    assert(rest.insert(key, rest[key]) =~= rest);
                }
                assert forall|value: Json|
                    #![trigger rest.insert(key, value)]
                    rest.insert(key, value).remove(key) == rest.remove(key) by {
                    assert(rest.insert(key, value).remove(key) =~= rest.remove(key));
                }
            }
        },
        None => {},
    }
}

/// What is sent to a worker for a request.
pub fn upstream_payload(body: &Value) -> (r: Result<Value, serde_json::Error>)
    ensures
        r is Ok,
        r matches Ok(payload) ==> json_of(payload) == without_program_id(json_of(*body)),
{
    let mut payload = copy_document(body)?;
    remove_program_id(&mut payload);
    Ok(payload)
}

/// What is answered to a chat completion that does not stream.
#[derive(Debug)]
pub enum ChatResponse {
    /// The request cannot be sent on.
    BadRequest { code: String, message: String },
    /// No worker answers.
    ServiceUnavailable { code: String, message: String },
    /// A worker's answer.
    Upstream { status: u16, content_type: Vec<u8>, body: Vec<u8> },
}

/// The value of a response.
pub enum ResponseView {
    BadRequest { code: Seq<char>, message: Seq<char> },
    ServiceUnavailable { code: Seq<char>, message: Seq<char> },
    Upstream { status: u16, content_type: Seq<u8>, body: Seq<u8> },
}

impl View for ChatResponse {
    type V = ResponseView;

    open spec fn view(&self) -> ResponseView {
        match *self {
            ChatResponse::BadRequest { code, message } => ResponseView::BadRequest {
                code: code@,
                message: message@,
            },
            ChatResponse::ServiceUnavailable { code, message } => ResponseView::ServiceUnavailable {
                code: code@,
                message: message@,
            },
            ChatResponse::Upstream { status, content_type, body } => ResponseView::Upstream {
                status,
                content_type: content_type@,
                body: body@,
            },
        }
    }
}

/// A response with the usage that its body reports.
#[derive(Debug)]
pub struct ForwardedChatResponse {
    pub response: ChatResponse,
    pub usage: Option<UsageTokens>,
}

impl ForwardedChatResponse {
    fn new(response: ChatResponse, usage: Option<UsageTokens>) -> (r: ForwardedChatResponse)
        ensures
            r.response == response,
            r.usage == usage,
    {
        ForwardedChatResponse { response, usage }
    }
}

/// What came of sending a request that does not stream to a worker.
#[derive(Debug)]
pub enum UpstreamReply {
    /// The request could not be written as JSON.
    Unserializable { reason: String },
    /// The worker could not be reached.
    Unreachable { reason: String },
    /// The worker answered, but its body could not be read.
    Unreadable { reason: String },
    /// The worker answered.
    Answered { status: u16, content_type: Option<Vec<u8>>, body: Vec<u8> },
}

/// What came of sending a streaming request to a worker.
#[derive(Debug)]
pub enum StreamReply {
    /// The request could not be written as JSON.
    Unserializable { reason: String },
    /// The worker could not be reached.
    Unreachable { reason: String },
    /// The worker began to answer.
    Opened { status: u16, content_type: Option<Vec<u8>> },
}

/// What is answered to a streaming chat completion.
#[derive(Debug)]
pub enum StreamedChat {
    /// Nothing streams; the events are all that is to tell of the request.
    Failed { response: ChatResponse, events: Vec<StreamEvent> },
    /// The worker's bytes are handed on as they are, and `finisher` follows them.
    Streaming { status: u16, content_type: Vec<u8>, finisher: StreamingProgramFinisher },
}

/// The answer to a request that cannot be written as JSON.
pub open spec fn unserializable(reason: Seq<char>) -> ResponseView {
    ResponseView::BadRequest {
        code: "validation_error"@,
        message: "Failed to serialize chat completion body: "@ + reason,
    }
}

/// The answer where the worker at `url` cannot be reached.
pub open spec fn unreachable_worker(url: Seq<char>, reason: Seq<char>) -> ResponseView {
    ResponseView::ServiceUnavailable {
        code: "upstream_error"@,
        message: "Failed to contact upstream "@ + url + ": "@ + reason,
    }
}

/// The answer where the body of the worker at `url` cannot be read.
pub open spec fn unreadable_worker(url: Seq<char>, reason: Seq<char>) -> ResponseView {
    ResponseView::ServiceUnavailable {
        code: "upstream_error"@,
        message: "Failed to read upstream body from "@ + url + ": "@ + reason,
    }
}

/// The status that is handed on: the worker's, or 500 where it is no HTTP status.
pub open spec fn relayed_status(status: u16) -> u16 {
    if 100 <= status <= 999 {
        status
    } else {
        500
    }
}

/// The worker's content type, or the usual one where it gave none.
pub open spec fn relayed_type(content_type: Option<Vec<u8>>, usual: Seq<char>) -> Seq<u8> {
    match content_type {
        Some(given) => given@,
        None => encode_utf8(usual),
    }
}

/// The answer to a request that does not stream, for what came of sending it to `worker_url`.
pub open spec fn forwarded(worker_url: Seq<char>, reply: UpstreamReply) -> (
    ResponseView,
    Option<UsageTokens>,
) {
    let url = chat_url(worker_url);
    match reply {
        UpstreamReply::Unserializable { reason } => (unserializable(reason@), None),
        UpstreamReply::Unreachable { reason } => (unreachable_worker(url, reason@), None),
        UpstreamReply::Unreadable { reason } => (unreadable_worker(url, reason@), None),
        UpstreamReply::Answered { status, content_type, body } => (
            ResponseView::Upstream {
                status: relayed_status(status),
                content_type: relayed_type(content_type, "application/json"@),
                body: body@,
            },
            usage_of_body(parsed_bytes(body@)),
        ),
    }
}

/// Whether `answer` is what a streaming request gets, for what came of sending it to `worker_url`.
pub open spec fn answers_stream(
    answer: StreamedChat,
    worker_url: Seq<char>,
    reply: StreamReply,
    finish_due: bool,
) -> bool {
    let told = if finish_due {
        seq![StreamEvent::Finish(None)]
    } else {
        Seq::empty()
    };
    match reply {
        StreamReply::Unserializable { reason } => answer matches StreamedChat::Failed {
            response,
            events,
        } && response@ == unserializable(reason@) && events@ == told,
        StreamReply::Unreachable { reason } => answer matches StreamedChat::Failed {
            response,
            events,
        } && response@ == unreachable_worker(chat_url(worker_url), reason@) && events@ == told,
        StreamReply::Opened { status, content_type } => answer matches StreamedChat::Streaming {
            status: relayed,
            content_type: kept,
            finisher,
        } && relayed == relayed_status(status) && kept@ == relayed_type(
            content_type,
            "text/event-stream"@,
        ) && finisher@ == (StreamView {
            rest: Seq::empty(),
            standing: Standing::start(finish_due),
        }) && finisher@.wf(),
    }
}

fn bad_request(code: &str, message: String) -> (r: ChatResponse)
    ensures
        r@ == (ResponseView::BadRequest { code: code@, message: message@ }),
{
    ChatResponse::BadRequest { code: code.to_owned(), message }
}

pub(crate) fn service_unavailable(code: &str, message: String) -> (r: ChatResponse)
    ensures
        r@ == (ResponseView::ServiceUnavailable { code: code@, message: message@ }),
{
    ChatResponse::ServiceUnavailable { code: code.to_owned(), message }
}

fn unserializable_response(reason: &str) -> (r: ChatResponse)
    ensures
        r@ == unserializable(reason@),
{
    bad_request(
        "validation_error",
        joined("Failed to serialize chat completion body: ", reason),
    )
}

fn unreachable_response(url: &str, reason: &str) -> (r: ChatResponse)
    ensures
        r@ == unreachable_worker(url@, reason@),
{
    let known = joined(&joined("Failed to contact upstream ", url), ": ");
    service_unavailable("upstream_error", joined(&known, reason))
}

fn unreadable_response(url: &str, reason: &str) -> (r: ChatResponse)
    ensures
        r@ == unreadable_worker(url@, reason@),
{
    let known = joined(&joined("Failed to read upstream body from ", url), ": ");
    service_unavailable("upstream_error", joined(&known, reason))
}

fn status_or_error(status: u16) -> (r: u16)
    ensures
        r == relayed_status(status),
{
    if 100 <= status && status <= 999 {
        status
    } else {
        500
    }
}

fn content_type_or(content_type: Option<Vec<u8>>, usual: &str) -> (r: Vec<u8>)
    ensures
        r@ == relayed_type(content_type, usual@),
{
    match content_type {
        Some(given) => given,
        None => usual.as_bytes_vec(),
    }
}

/// Answers a request that does not stream: a worker's answer is handed on with its status, its
/// content type and its body, and a failure to get one becomes an error response.
pub fn forward_non_streaming_chat(
    worker_url: &str,
    reply: UpstreamReply,
) -> (r: ForwardedChatResponse)
    ensures
        (r.response@, r.usage) == forwarded(worker_url@, reply),
{
    let url = chat_completions_url(worker_url);
    match reply {
        UpstreamReply::Unserializable { reason } => ForwardedChatResponse::new(
            unserializable_response(&reason),
            None,
        ),
        UpstreamReply::Unreachable { reason } => ForwardedChatResponse::new(
            unreachable_response(&url, &reason),
            None,
        ),
        UpstreamReply::Unreadable { reason } => ForwardedChatResponse::new(
            unreadable_response(&url, &reason),
            None,
        ),
        UpstreamReply::Answered { status, content_type, body } => {
            let usage = extract_usage_from_bytes(body.as_slice());
            let response = ChatResponse::Upstream {
                status: status_or_error(status),
                content_type: content_type_or(content_type, "application/json"),
                body,
            };
            ForwardedChatResponse::new(response, usage)
        },
    }
}

fn failed_stream(response: ChatResponse, finish_due: bool) -> (r: StreamedChat)
    ensures
        r matches StreamedChat::Failed { response: kept, events } && kept == response && events@
            == if finish_due {
            seq![StreamEvent::Finish(None)]
        } else {
            Seq::empty()
        },
{
    let mut events: Vec<StreamEvent> = Vec::new();
    if finish_due {
        events.push(StreamEvent::Finish(None));
    }
    StreamedChat::Failed { response, events }
}

/// Answers a streaming request: a worker's answer is handed on while it comes in, and where there
/// is none the end of the request is told, if it is due, with an error response.
pub fn forward_streaming_chat(worker_url: &str, reply: StreamReply, finish_due: bool) -> (r:
    StreamedChat)
    ensures
        answers_stream(r, worker_url@, reply, finish_due),
{
    match reply {
        StreamReply::Unserializable { reason } => failed_stream(
            unserializable_response(&reason),
            finish_due,
        ),
        StreamReply::Unreachable { reason } => {
            let url = chat_completions_url(worker_url);
            failed_stream(unreachable_response(&url, &reason), finish_due)
        },
        StreamReply::Opened { status, content_type } => StreamedChat::Streaming {
            status: status_or_error(status),
            content_type: content_type_or(content_type, "text/event-stream"),
            finisher: StreamingProgramFinisher::new(finish_due),
        },
    }
}

proof fn keys_differ()
    ensures
        "program_id"@ != "extra_body"@,
{
    reveal_strlit("program_id");
    reveal_strlit("extra_body");
    assert("program_id"@[0] == 'p');
    assert("extra_body"@[0] == 'e');
}

/// A worker never sees the program id: no request that is sent has one, neither at the top nor in
/// `extra_body`.
pub proof fn no_program_id_is_sent(members: Map<Seq<char>, Json>)
    ensures
        !stripped(members).contains_key("program_id"@),
        Json::Object(stripped(members)).field("extra_body"@) matches Some(Json::Object(extra))
            ==> !extra.contains_key("program_id"@) && !extra.is_empty(),
{
    keys_differ();
}

/// Everything else of a request is sent as it came: every other member at the top, and every other
/// member of `extra_body`.
pub proof fn the_rest_is_sent(members: Map<Seq<char>, Json>, key: Seq<char>)
    requires
        key != "program_id"@,
    ensures
        key != "extra_body"@ ==> Json::Object(stripped(members)).field(key) == Json::Object(
            members,
        ).field(key),
        Json::Object(members).field("extra_body"@) matches Some(extra) ==> {
            &&& !(extra is Object) ==> Json::Object(stripped(members)).field("extra_body"@) == Some(
                extra,
            )
            &&& extra.field(key) is Some ==> Json::Object(stripped(members)).field(
                "extra_body"@,
            ) is Some && Json::Object(stripped(members)).field("extra_body"@)->0.field(key)
                == extra.field(key)
        },
        Json::Object(members).field("extra_body"@) is None ==> Json::Object(
            stripped(members),
        ).field("extra_body"@) is None,
{
    keys_differ();
    if let Some(Json::Object(extra)) = Json::Object(members).field("extra_body"@) {
        let left = extra.remove("program_id"@);
        if extra.contains_key(key) {
            assert(left.dom().contains(key));
            assert(!left.is_empty());
        }
    }
}

/// Taking the program id out twice is taking it out once.
pub proof fn stripping_twice_is_stripping_once(document: Json)
    ensures
        without_program_id(without_program_id(document)) == without_program_id(document),
{
    if let Json::Object(members) = document {
        no_program_id_is_sent(members);
        keys_differ();
        let once = stripped(members);
        assert(once.remove("program_id"@) =~= once);
        if let Some(Json::Object(extra)) = Json::Object(once).field("extra_body"@) {
            assert(extra.remove("program_id"@) =~= extra);
            assert(once.insert("extra_body"@, Json::Object(extra)) =~= once);
        }
    }
}

/// A request without a program id and without an empty `extra_body` is sent as it came.
pub proof fn a_plain_request_is_sent_as_it_came(members: Map<Seq<char>, Json>)
    requires
        !members.contains_key("program_id"@),
        Json::Object(members).field("extra_body"@) matches Some(Json::Object(extra))
            ==> !extra.contains_key("program_id"@) && !extra.is_empty(),
    ensures
        stripped(members) == members,
{
    assert(members.remove("program_id"@) =~= members);
    if let Some(Json::Object(extra)) = Json::Object(members).field("extra_body"@) {
        assert(extra.remove("program_id"@) =~= extra);
        assert(members.insert("extra_body"@, Json::Object(extra)) =~= members);
    }
}

/// What a worker answers is handed on unchanged: its status, its body, and its content type where
/// it gave one.
pub proof fn an_answer_is_handed_on_unchanged(
    worker_url: Seq<char>,
    status: u16,
    content_type: Option<Vec<u8>>,
    body: Vec<u8>,
)
    requires
        100 <= status <= 999,
    ensures
        forwarded(
            worker_url,
            UpstreamReply::Answered { status, content_type, body },
        ).0 matches ResponseView::Upstream { status: relayed, content_type: kept, body: same }
            && relayed == status && same == body@ && (content_type matches Some(given) ==> kept
            == given@),
{
}

/// Whatever goes wrong on the way to a worker and back is answered as an unavailable service, and a
/// stream that never began is told to have ended, once, if its end is due.
pub proof fn failures_are_told(
    worker_url: Seq<char>,
    reason: String,
    answer: StreamedChat,
    finish_due: bool,
)
    requires
        answers_stream(answer, worker_url, StreamReply::Unreachable { reason }, finish_due),
    ensures
        forwarded(
            worker_url,
            UpstreamReply::Unreachable { reason },
        ).0 is ServiceUnavailable,
        forwarded(worker_url, UpstreamReply::Unreadable { reason }).0 is ServiceUnavailable,
        answer matches StreamedChat::Failed { response, events }
            && response@ is ServiceUnavailable && finishes(events@) == if finish_due {
            1int
        } else {
            0
        },
{
    assert(seq![StreamEvent::Finish(None)].drop_last() =~= Seq::<StreamEvent>::empty());
    assert(finishes(Seq::<StreamEvent>::empty()) == 0);
    assert(finishes(seq![StreamEvent::Finish(None)]) == 1);
}

/// Where a worker takes chat completions: its address without any slash at the end, and the path.
pub proof fn a_chat_url_has_one_slash(base: Seq<char>, slashes: Seq<char>)
    requires
        base.len() > 0 ==> base.last() != '/',
        forall|i: int| 0 <= i < slashes.len() ==> #[trigger] slashes[i] == '/',
    ensures
        chat_url(base + slashes) == base + "/v1/chat/completions"@,
{
    let whole = base + slashes;
    let cut = trim_end_of(whole, '/');
    trim_end_of_takes_only_the_end(whole, '/');
    if cut.len() < base.len() {
        assert(whole[base.len() - 1] == base.last());
    }
    if cut.len() > base.len() {
        assert(cut.last() == whole[cut.len() - 1]);
        assert(whole[cut.len() - 1] == slashes[cut.len() - 1 - base.len()]);
    }
    assert(cut =~= base);
}

/// Nothing is sent that was not asked: every member that is sent came with the request, under the
/// same key, and outside of `extra_body` with the same value; and every member of an `extra_body`
/// that is sent was in the one that came. A request that is no object is sent as it came.
pub proof fn nothing_is_added_to_a_request(
    members: Map<Seq<char>, Json>,
    key: Seq<char>,
    other: Json,
)
    ensures
        stripped(members).contains_key(key) ==> members.contains_key(key),
        stripped(members).contains_key(key) && key != "extra_body"@ ==> stripped(members)[key]
            == members[key],
        stripped(members).contains_key("extra_body"@) ==> (
        stripped(members)["extra_body"@].field(key) is Some ==> stripped(
            members,
        )["extra_body"@].field(key) == members["extra_body"@].field(key)),
        stripped(members).contains_key("extra_body"@) ==> (stripped(members)["extra_body"@]
            is Object <==> members["extra_body"@] is Object),
        without_program_id(Json::Object(members)) == Json::Object(stripped(members)),
        !(other is Object) ==> without_program_id(other) == other,
{
    keys_differ();
}

/// An `extra_body` that holds nothing but the program id, or nothing at all, is not sent.
pub proof fn an_empty_extra_body_is_not_sent(
    members: Map<Seq<char>, Json>,
    extra: Map<Seq<char>, Json>,
)
    requires
        members.contains_key("extra_body"@),
        members["extra_body"@] == Json::Object(extra),
        forall|key: Seq<char>| #[trigger] extra.contains_key(key) ==> key == "program_id"@,
    ensures
        !stripped(members).contains_key("extra_body"@),
{
    keys_differ();
    let left = extra.remove("program_id"@);
    assert(left.dom() =~= Set::<Seq<char>>::empty());
    assert(left.is_empty());
}

/// A status of three digits is handed on, and any other becomes an internal error.
pub proof fn a_status_of_three_digits_is_handed_on(status: u16)
    ensures
        100 <= status <= 999 ==> relayed_status(status) == status,
        status < 100 || status > 999 ==> relayed_status(status) == 500,
{
}

/// A content type that a worker gave is handed on byte by byte; otherwise it is the usual one.
pub proof fn a_given_content_type_is_handed_on(given: Vec<u8>, usual: Seq<char>)
    ensures
        relayed_type(Some(given), usual) == given@,
        relayed_type(None, usual) == encode_utf8(usual),
{
}

/// Every failure is answered with its code and a message that names what failed, where, and why, and
/// carries no usage: a request that cannot be written is a bad request, and a worker that cannot be
/// reached or read is an unavailable service.
pub proof fn failures_say_what_failed(worker_url: Seq<char>, reason: String)
    ensures
        forwarded(worker_url, UpstreamReply::Unserializable { reason }) == (
            ResponseView::BadRequest {
                code: "validation_error"@,
                message: "Failed to serialize chat completion body: "@ + reason@,
            },
            None::<UsageTokens>,
        ),
        forwarded(worker_url, UpstreamReply::Unreachable { reason }) == (
            ResponseView::ServiceUnavailable {
                code: "upstream_error"@,
                message: "Failed to contact upstream "@ + chat_url(worker_url) + ": "@ + reason@,
            },
            None::<UsageTokens>,
        ),
        forwarded(worker_url, UpstreamReply::Unreadable { reason }) == (
            ResponseView::ServiceUnavailable {
                code: "upstream_error"@,
                message: "Failed to read upstream body from "@ + chat_url(worker_url) + ": "@
                    + reason@,
            },
            None::<UsageTokens>,
        ),
{
}

/// A worker's answer is handed on whatever its status: the body byte by byte, the status as far as
/// it is one, the content type or JSON, and the usage that the body reports.
pub proof fn every_answer_is_handed_on(
    worker_url: Seq<char>,
    status: u16,
    content_type: Option<Vec<u8>>,
    body: Vec<u8>,
)
    ensures
        ({
            let (response, usage) = forwarded(
                worker_url,
                UpstreamReply::Answered { status, content_type, body },
            );
            &&& response is Upstream
            &&& response->Upstream_body == body@
            &&& 100 <= status <= 999 ==> response->Upstream_status == status
            &&& status < 100 || status > 999 ==> response->Upstream_status == 500
            &&& content_type matches Some(given) ==> response->Upstream_content_type == given@
            &&& content_type is None ==> response->Upstream_content_type == encode_utf8(
                "application/json"@,
            )
            &&& parsed_bytes(body@) matches Some(payload) ==> usage == usage_of(payload)
            &&& parsed_bytes(body@) is None ==> usage is None
        }),
{
}

/// A stream that cannot begin is answered like a request that does not stream, and its end is told
/// without usage if it is due; one that begins has told nothing yet.
pub proof fn streams_are_answered_alike(
    worker_url: Seq<char>,
    reason: String,
    status: u16,
    content_type: Option<Vec<u8>>,
    finish_due: bool,
    answer: StreamedChat,
)
    ensures
        answers_stream(answer, worker_url, StreamReply::Unserializable { reason }, finish_due)
            ==> answer is Failed && answer->response@ == forwarded(
            worker_url,
            UpstreamReply::Unserializable { reason },
        ).0,
        answers_stream(answer, worker_url, StreamReply::Unreachable { reason }, finish_due)
            ==> answer is Failed && answer->response@ == forwarded(
            worker_url,
            UpstreamReply::Unreachable { reason },
        ).0,
        (answers_stream(answer, worker_url, StreamReply::Unserializable { reason }, finish_due)
            || answers_stream(answer, worker_url, StreamReply::Unreachable { reason }, finish_due))
            ==> (finish_due ==> answer->events@ == seq![StreamEvent::Finish(None)]) && (!finish_due
            ==> answer->events@.len() == 0),
        answers_stream(
            answer,
            worker_url,
            StreamReply::Opened { status, content_type },
            finish_due,
        ) ==> {
            &&& answer is Streaming
            &&& 100 <= status <= 999 ==> answer->status == status
            &&& status < 100 || status > 999 ==> answer->status == 500
            &&& content_type matches Some(given) ==> answer->content_type@ == given@
            &&& content_type is None ==> answer->content_type@ == encode_utf8(
                "text/event-stream"@,
            )
            &&& answer->finisher@.rest.len() == 0
            &&& answer->finisher@.standing.usage is None
            &&& !answer->finisher@.standing.first_token_seen
            &&& answer->finisher@.standing.pending == 0
            &&& answer->finisher@.standing.finish_due == finish_due
        },
{
}

/// The value of a response is made of its fields.
pub proof fn a_response_is_its_fields(
    code: String,
    message: String,
    status: u16,
    content_type: Vec<u8>,
    body: Vec<u8>,
)
    ensures
        (ChatResponse::BadRequest { code, message })@ == (ResponseView::BadRequest {
            code: code@,
            message: message@,
        }),
        (ChatResponse::ServiceUnavailable { code, message })@ == (
        ResponseView::ServiceUnavailable { code: code@, message: message@ }),
        (ChatResponse::Upstream { status, content_type, body })@ == (ResponseView::Upstream {
            status,
            content_type: content_type@,
            body: body@,
        }),
{
}

} // verus!
