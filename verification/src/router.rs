//! The router: which worker gets a request, and what the request means for its program.

use crate::backend::{one_on, program_count, program_tokens, tokens_on};
use crate::json::{field, json_of, member, render, rendered, serialize, serialized, Json};
use crate::program::{Program, ProgramState, ProgramStatus, ProgramView};
use crate::proxy::{
    service_unavailable, upstream_payload, without_program_id, ChatResponse, ForwardedChatResponse,
    ResponseView,
};
use crate::registry::{one_program_more, ProgramRegistry};
use crate::scheduler::only_resumes;
use crate::stream::{finishes, reported, StreamEvent};
use crate::text::joined;
use crate::usage::UsageTokens;
use serde_json::Value;
use vstd::prelude::*;

verus! {

/// How the gateway is set to route.
#[derive(Debug)]
pub enum RoutingMode {
    /// Through this router, to these workers.
    Thunder { worker_urls: Vec<String> },
    /// Some other way, which `described` names.
    Other { described: String },
}

/// The values of texts.
pub open spec fn texts_of(texts: Seq<String>) -> Seq<Seq<char>> {
    texts.map_values(|text: String| text@)
}

/// Routes each request to a worker and keeps account of the programs that send them.
#[derive(Debug)]
pub struct ThunderRouter {
    worker_urls: Vec<String>,
    programs: ProgramRegistry,
}

/// The value of a router.
pub struct RouterView {
    pub worker_urls: Seq<Seq<char>>,
    pub programs: Map<Seq<char>, ProgramView>,
}

impl View for ThunderRouter {
    type V = RouterView;

    closed spec fn view(&self) -> RouterView {
        RouterView { worker_urls: texts_of(self.worker_urls@), programs: self.programs@ }
    }
}

/// Whether the program under an id, if there is one, can count one more request.
pub open spec fn can_step(programs: Map<Seq<char>, ProgramView>, program_id: Seq<char>) -> bool {
    programs.contains_key(program_id) ==> programs[program_id].step_count < u64::MAX
}

/// The program under an id, or a fresh one.
pub open spec fn known_or_fresh(
    programs: Map<Seq<char>, ProgramView>,
    program_id: Seq<char>,
) -> ProgramView {
    if programs.contains_key(program_id) {
        programs[program_id]
    } else {
        ProgramView::fresh(program_id)
    }
}

/// The programs once the one under `program_id` sends a request to `worker_url`.
pub open spec fn prepared(
    programs: Map<Seq<char>, ProgramView>,
    program_id: Seq<char>,
    context_len: usize,
    worker_url: Seq<char>,
) -> Map<Seq<char>, ProgramView> {
    programs.insert(
        program_id,
        known_or_fresh(programs, program_id).requested(context_len, worker_url),
    )
}

/// The programs once the one under `program_id` got its completion.
pub open spec fn completed(
    programs: Map<Seq<char>, ProgramView>,
    program_id: Seq<char>,
    total_tokens: Option<u64>,
) -> Map<Seq<char>, ProgramView> {
    if programs.contains_key(program_id) {
        programs.insert(program_id, programs[program_id].answered(total_tokens))
    } else {
        programs
    }
}

/// The programs once more tokens for the one under `program_id` came in.
pub open spec fn streamed_to(
    programs: Map<Seq<char>, ProgramView>,
    program_id: Seq<char>,
    delta_tokens: u64,
) -> Map<Seq<char>, ProgramView> {
    if programs.contains_key(program_id) {
        programs.insert(program_id, programs[program_id].streamed(delta_tokens))
    } else {
        programs
    }
}

/// The token total of an optional usage.
pub open spec fn total_of(usage: Option<UsageTokens>) -> Option<u64> {
    match usage {
        Some(u) => u.total_tokens,
        None => None,
    }
}

/// The programs once a stream told something of the request of the one under `program_id`.
pub open spec fn told(
    programs: Map<Seq<char>, ProgramView>,
    program_id: Seq<char>,
    event: StreamEvent,
) -> Map<Seq<char>, ProgramView> {
    match event {
        StreamEvent::FirstToken => programs,
        StreamEvent::Progress(tokens) => streamed_to(programs, program_id, tokens),
        StreamEvent::Finish(usage) => completed(programs, program_id, total_of(usage)),
    }
}

/// The programs once a stream told several things in turn.
pub open spec fn told_all(
    programs: Map<Seq<char>, ProgramView>,
    program_id: Seq<char>,
    events: Seq<StreamEvent>,
) -> Map<Seq<char>, ProgramView>
    decreases events.len(),
{
    if events.len() == 0 {
        programs
    } else {
        told(told_all(programs, program_id, events.drop_last()), program_id, events.last())
    }
}

/// The id that a value stands for: the characters of a text, and for any other value the text that
/// it is written as.
pub open spec fn id_of_value(value: Json) -> Seq<char> {
    match value.text() {
        Some(text) => text,
        None => rendered(value),
    }
}

/// The program that a request belongs to: the one that `program_id` names, or else
/// `extra_body.program_id`, or else `default`.
pub open spec fn id_of_request(body: Json) -> Seq<char> {
    match body.field("program_id"@) {
        Some(value) => id_of_value(value),
        None => match body.field("extra_body"@) {
            Some(extra) => match extra.field("program_id"@) {
                Some(value) => id_of_value(value),
                None => "default"@,
            },
            None => "default"@,
        },
    }
}

/// How long a request is once it is written; nothing is counted where that fails.
pub open spec fn written_len(written: Option<Seq<u8>>) -> int {
    match written {
        Some(bytes) => bytes.len() as int,
        None => 0,
    }
}

/// Whether a request asks for its completion to be streamed.
pub open spec fn asks_to_stream(body: Json) -> bool {
    body.field("stream"@) == Some(Json::Bool(true))
}

/// What is to be done with a request.
#[derive(Debug)]
pub enum ChatRoute {
    /// It is refused.
    Refused(ChatResponse),
    /// It goes to a worker.
    Forward { worker_url: String, program_id: String, payload: Value, stream: bool },
}

/// Whether a request can be routed: its program can count one more, or there is no worker and the
/// request is refused.
pub open spec fn can_route(router: RouterView, body: Json) -> bool {
    router.worker_urls.len() > 0 ==> can_step(router.programs, id_of_request(body))
}

/// What is to be done with a request, and the router after it: without a worker the request is
/// refused; otherwise it goes to the first one without its program id, and its program counts it.
pub open spec fn routes(
    route: ChatRoute,
    before: RouterView,
    after: RouterView,
    body: Json,
) -> bool {
    if before.worker_urls.len() == 0 {
        &&& route matches ChatRoute::Refused(response) && response@
            == (ResponseView::ServiceUnavailable {
            code: "no_workers"@,
            message: "Thunder mode has no worker URLs configured"@,
        })
        &&& after == before
    } else {
        &&& route matches ChatRoute::Forward { worker_url, program_id, payload, stream }
            && worker_url@ == before.worker_urls[0] && program_id@ == id_of_request(body)
            && json_of(payload) == without_program_id(body) && stream == asks_to_stream(body)
        &&& after == (RouterView {
            programs: prepared(
                before.programs,
                id_of_request(body),
                written_len(serialized(body)) as usize,
                before.worker_urls[0],
            ),
            ..before
        })
    }
}

/// The id that a value stands for.
pub fn value_to_program_id(value: &Value) -> (id: String)
    ensures
        id@ == id_of_value(json_of(*value)),
{
    match value.as_str() {
        Some(text) => text.to_owned(),
        None => render(value),
    }
}

/// The program that a request belongs to.
pub fn program_id_from_request(body: &Value) -> (id: String)
    ensures
        id@ == id_of_request(json_of(*body)),
{
    match field(body, "program_id") {
        Some(value) => value_to_program_id(value),
        None => match field(body, "extra_body") {
            Some(extra) => match extra.as_object() {
                Some(members) => match member(members, "program_id") {
                    Some(value) => value_to_program_id(value),
                    None => "default".to_owned(),
                },
                None => "default".to_owned(),
            },
            None => "default".to_owned(),
        },
    }
}

/// How long a request is once it is written.
pub fn context_len(body: &Value) -> (r: usize)
    ensures
        r == written_len(serialized(json_of(*body))),
{
    match serialize(body) {
        Ok(bytes) => bytes.len(),
        Err(_) => 0,
    }
}

fn wants_stream(body: &Value) -> (r: bool)
    ensures
        r == asks_to_stream(json_of(*body)),
{
    match field(body, "stream") {
        Some(value) => match value.as_bool() {
            Some(stream) => stream,
            None => false,
        },
        None => false,
    }
}

fn total_in(usage: Option<UsageTokens>) -> (r: Option<u64>)
    ensures
        r == total_of(usage),
{
    match usage {
        Some(usage) => usage.total_tokens(),
        None => None,
    }
}

impl ThunderRouter {
    /// A router for the workers that the mode names; any other mode is an error.
    pub fn new(mode: RoutingMode) -> (r: Result<ThunderRouter, String>)
        ensures
            match mode {
                RoutingMode::Thunder { worker_urls } => r matches Ok(router) && router@ == (
                RouterView { worker_urls: texts_of(worker_urls@), programs: Map::empty() }),
                RoutingMode::Other { described } => r matches Err(reason) && reason@
                    == "ThunderRouter::new called with non-Thunder mode: "@ + described@,
            },
    {
        match mode {
            RoutingMode::Thunder { worker_urls } => Ok(
                ThunderRouter { worker_urls, programs: ProgramRegistry::new() },
            ),
            RoutingMode::Other { described } => Err(
                joined("ThunderRouter::new called with non-Thunder mode: ", &described),
            ),
        }
    }

    /// The workers, in the order in which they were named.
    pub fn worker_urls(&self) -> (r: &[String])
        ensures
            texts_of(r@) == self@.worker_urls,
    {
        self.worker_urls.as_slice()
    }

    /// The programs that sent requests.
    pub fn programs(&self) -> (r: &ProgramRegistry)
        ensures
            r@ == self@.programs,
    {
        &self.programs
    }

    /// The programs that sent requests, for a scheduler to pause and resume.
    pub fn programs_mut(&mut self) -> (r: &mut ProgramRegistry)
        ensures
            r@ == old(self)@.programs,
            final(self)@ == (RouterView { programs: final(r)@, ..old(self)@ }),
    {
        &mut self.programs
    }

    /// What the router is called.
    pub fn router_type(&self) -> (r: &'static str)
        ensures
            r@ == "thunder"@,
    {
        "thunder"
    }

    /// The worker for the next request: the first one.
    pub fn select_worker_url(&self) -> (r: Option<&String>)
        ensures
            r is Some <==> self@.worker_urls.len() > 0,
            r matches Some(url) ==> url@ == self@.worker_urls[0],
    {
        if self.worker_urls.len() > 0 {
            Some(&self.worker_urls[0])
        } else {
            None
        }
    }

    /// Counts a request of a program, which is added if it is new.
    pub fn prepare_program(&mut self, program_id: &str, body: &Value, worker_url: &str)
        requires
            can_step(old(self)@.programs, program_id@),
        ensures
            final(self)@ == (RouterView {
                programs: prepared(
                    old(self)@.programs,
                    program_id@,
                    written_len(serialized(json_of(*body))) as usize,
                    worker_url@,
                ),
                ..old(self)@
            }),
    {
        let len = context_len(body);
        self.prepare_program_of(program_id, len, worker_url);
    }

    /// Counts a request of the given length of a program, which is added if it is new.
    pub fn prepare_program_of(&mut self, program_id: &str, context_len: usize, worker_url: &str)
        requires
            can_step(old(self)@.programs, program_id@),
        ensures
            final(self)@ == (RouterView {
                programs: prepared(
                    old(self)@.programs,
                    program_id@,
                    context_len,
                    worker_url@,
                ),
                ..old(self)@
            }),
    {
        self.try_prepare_program_of(program_id, context_len, worker_url);
    }

    /// Counts a request of the given length of a program, and tells whether it did: a program whose
    /// count is at its limit stays as it is.
    pub fn try_prepare_program_of(
        &mut self,
        program_id: &str,
        context_len: usize,
        worker_url: &str,
    ) -> (counted: bool)
        ensures
            counted == can_step(old(self)@.programs, program_id@),
            final(self)@ == if counted {
                RouterView {
                    programs: prepared(
                        old(self)@.programs,
                        program_id@,
                        context_len,
                        worker_url@,
                    ),
                    ..old(self)@
                }
            } else {
                old(self)@
            },
    {
        let ghost before = self.programs@;
        let mut program = Program::new(program_id);
        self.programs.insert_if_absent(program_id, Program::new(program_id));
        self.programs.exchange(program_id, &mut program);
        let counted = program.step_count < u64::MAX;
        if counted {
            program.before_request(context_len, worker_url);
        }
        self.programs.exchange(program_id, &mut program);
        proof {
            if counted {
                assert(self.programs@ =~= prepared(before, program_id@, context_len, worker_url@));
            } else {
                assert(self.programs@ =~= before);
            }
        }
        counted
    }

    /// Notes that the completion for a program came back. An unknown program is passed over.
    pub fn complete_program(&mut self, program_id: &str, total_tokens: Option<u64>)
        ensures
            final(self)@ == (RouterView {
                programs: completed(old(self)@.programs, program_id@, total_tokens),
                ..old(self)@
            }),
    {
        let ghost before = self.programs@;
        let mut program = Program::new(program_id);
        if self.programs.exchange(program_id, &mut program) {
            program.after_request(total_tokens);
            self.programs.exchange(program_id, &mut program);
        }
        proof {
            assert(self.programs@ =~= completed(before, program_id@, total_tokens));
        }
    }

    /// Counts tokens of a completion that still comes in. An unknown program is passed over.
    pub fn stream_tokens(&mut self, program_id: &str, delta_tokens: u64)
        ensures
            final(self)@ == (RouterView {
                programs: streamed_to(old(self)@.programs, program_id@, delta_tokens),
                ..old(self)@
            }),
    {
        let ghost before = self.programs@;
        let mut program = Program::new(program_id);
        if self.programs.exchange(program_id, &mut program) {
            program.update_streaming_tokens(delta_tokens);
            self.programs.exchange(program_id, &mut program);
        }
        proof {
            assert(self.programs@ =~= streamed_to(before, program_id@, delta_tokens));
        }
    }

    /// Takes in what a stream told of a program's request.
    pub fn observe_events(&mut self, program_id: &str, events: &[StreamEvent])
        ensures
            final(self)@ == (RouterView {
                programs: told_all(old(self)@.programs, program_id@, events@),
                ..old(self)@
            }),
    {
        let ghost before = self@;
        let mut i: usize = 0;
        while i < events.len()
            invariant
                i <= events@.len(),
                self@ == (RouterView {
                    programs: told_all(before.programs, program_id@, events@.take(i as int)),
                    ..before
                }),
            decreases events@.len() - i,
        {
            proof {
                assert(events@.take(i + 1).drop_last() == events@.take(i as int));
            }
            match events[i] {
                StreamEvent::FirstToken => {},
                StreamEvent::Progress(tokens) => self.stream_tokens(program_id, tokens),
                StreamEvent::Finish(usage) => self.complete_program(program_id, total_in(usage)),
            }
            i = i + 1;
        }
        proof {
            assert(events@.take(events@.len() as int) == events@);
        }
    }

    /// Decides what is to be done with a request and counts it for its program; nothing is done
    /// where the program's count is at its limit.
    pub fn try_route_chat(&mut self, body: &Value) -> (route: Option<ChatRoute>)
        ensures
            route is Some <==> can_route(old(self)@, json_of(*body)),
            match route {
                Some(route) => routes(route, old(self)@, final(self)@, json_of(*body)),
                None => final(self)@ == old(self)@,
            },
    {
        let worker_url = match self.select_worker_url() {
            Some(url) => url.clone(),
            None => {
                let message = "Thunder mode has no worker URLs configured".to_owned();
                return Some(ChatRoute::Refused(service_unavailable("no_workers", message)));
            },
        };
        let program_id = program_id_from_request(body);
        let len = context_len(body);
        if !self.try_prepare_program_of(&program_id, len, &worker_url) {
            return None;
        }
        match upstream_payload(body) {
            Ok(payload) => {
                let stream = wants_stream(body);
                Some(ChatRoute::Forward { worker_url, program_id, payload, stream })
            },
            Err(_) => None,
        }
    }

    /// Decides what is to be done with a request and counts it for its program.
    pub fn route_chat(&mut self, body: &Value) -> (route: ChatRoute)
        requires
            can_route(old(self)@, json_of(*body)),
        ensures
            routes(route, old(self)@, final(self)@, json_of(*body)),
    {
        self.try_route_chat(body).unwrap()
    }

    /// Notes the answer to a program's request that did not stream, and hands the response back.
    pub fn answer_chat(&mut self, program_id: &str, forwarded: ForwardedChatResponse) -> (r:
        ChatResponse)
        ensures
            r == forwarded.response,
            final(self)@ == (RouterView {
                programs: completed(
                    old(self)@.programs,
                    program_id@,
                    total_of(forwarded.usage),
                ),
                ..old(self)@
            }),
    {
        self.complete_program(program_id, total_in(forwarded.usage));
        forwarded.response
    }
}

/// Every program is held under its own id.
pub open spec fn ids_match(programs: Map<Seq<char>, ProgramView>) -> bool {
    forall|key: Seq<char>| #[trigger]
        programs.contains_key(key) ==> programs[key].program_id == key
}

/// Requests, completions and tokens that come in keep every program under its own id.
pub proof fn ids_stay_matched(
    programs: Map<Seq<char>, ProgramView>,
    program_id: Seq<char>,
    context_len: usize,
    worker_url: Seq<char>,
    events: Seq<StreamEvent>,
)
    requires
        ids_match(programs),
    ensures
        ids_match(prepared(programs, program_id, context_len, worker_url)),
        ids_match(told_all(programs, program_id, events)),
    decreases events.len(),
{
    if events.len() > 0 {
        ids_stay_matched(programs, program_id, context_len, worker_url, events.drop_last());
    }
}

/// A resumption keeps every program under its own id.
pub proof fn resuming_keeps_ids_matched(
    programs: Map<Seq<char>, ProgramView>,
    after: Map<Seq<char>, ProgramView>,
    rooms: Seq<(int, int)>,
    urls: Seq<Seq<char>>,
)
    requires
        ids_match(programs),
        only_resumes(programs, after, rooms, urls),
    ensures
        ids_match(after),
{
    assert forall|key: Seq<char>| #[trigger] after.contains_key(key) implies after[key].program_id
        == key by {
        assert(programs.contains_key(key));
    }
}

/// What happens to one program leaves every other program as it is.
pub proof fn programs_are_apart(
    programs: Map<Seq<char>, ProgramView>,
    program_id: Seq<char>,
    other: Seq<char>,
    context_len: usize,
    worker_url: Seq<char>,
    events: Seq<StreamEvent>,
)
    requires
        other != program_id,
    ensures
        prepared(programs, program_id, context_len, worker_url).contains_key(other)
            == programs.contains_key(other),
        prepared(programs, program_id, context_len, worker_url)[other] == programs[other],
        told_all(programs, program_id, events).contains_key(other) == programs.contains_key(other),
        told_all(programs, program_id, events)[other] == programs[other],
    decreases events.len(),
{
    if events.len() > 0 {
        programs_are_apart(
            programs,
            program_id,
            other,
            context_len,
            worker_url,
            events.drop_last(),
        );
    }
}

/// Each request adds one step to its program, which reasons and is active until the answer comes.
/// The answer adds no step; after it the program acts, with the total that the answer gave.
pub proof fn a_request_is_a_step(
    programs: Map<Seq<char>, ProgramView>,
    program_id: Seq<char>,
    context_len: usize,
    worker_url: Seq<char>,
    total_tokens: Option<u64>,
)
    requires
        can_step(programs, program_id),
    ensures
        ({
            let before = known_or_fresh(programs, program_id);
            let sent = prepared(programs, program_id, context_len, worker_url);
            let answered = completed(sent, program_id, total_tokens);
            &&& sent.contains_key(program_id)
            &&& sent[program_id].step_count == before.step_count + 1
            &&& sent[program_id].status == ProgramStatus::Reasoning
            &&& sent[program_id].state == ProgramState::Active
            &&& sent[program_id].total_tokens == before.total_tokens
            &&& answered.contains_key(program_id)
            &&& answered[program_id].step_count == before.step_count + 1
            &&& answered[program_id].status == ProgramStatus::Acting
            &&& answered[program_id].total_tokens == match total_tokens {
                Some(total) => total,
                None => before.total_tokens,
            }
        }),
{
}

proof fn tokens_told(
    programs: Map<Seq<char>, ProgramView>,
    program_id: Seq<char>,
    events: Seq<StreamEvent>,
)
    requires
        programs.contains_key(program_id),
        finishes(events) == 0,
    ensures
        0 <= reported(events),
        told_all(programs, program_id, events) == programs.insert(
            program_id,
            ProgramView {
                total_tokens: if programs[program_id].total_tokens + reported(events) <= u64::MAX {
                    (programs[program_id].total_tokens + reported(events)) as u64
                } else {
                    u64::MAX
                },
                ..programs[program_id]
            },
        ),
    decreases events.len(),
{
    if events.len() > 0 {
        finishes_are_counted(events.drop_last());
        tokens_told(programs, program_id, events.drop_last());
    }
    assert(told_all(programs, program_id, events) =~= programs.insert(
        program_id,
        ProgramView {
            total_tokens: if programs[program_id].total_tokens + reported(events) <= u64::MAX {
                (programs[program_id].total_tokens + reported(events)) as u64
            } else {
                u64::MAX
            },
            ..programs[program_id]
        },
    ));
}

proof fn finishes_are_counted(events: Seq<StreamEvent>)
    ensures
        0 <= finishes(events),
    decreases events.len(),
{
    if events.len() > 0 {
        finishes_are_counted(events.drop_last());
    }
}

/// A streamed answer ends as one that came at once: the program acts. Its total is the one that the
/// stream gave, and without one all that the stream reported is added to what it held, up to the
/// largest count there is.
pub proof fn a_streamed_answer_is_counted(
    programs: Map<Seq<char>, ProgramView>,
    program_id: Seq<char>,
    events: Seq<StreamEvent>,
    usage: Option<UsageTokens>,
)
    requires
        programs.contains_key(program_id),
        finishes(events) == 0,
    ensures
        ({
            let before = programs[program_id];
            let after = told_all(
                programs,
                program_id,
                events.push(StreamEvent::Finish(usage)),
            )[program_id];
            &&& after.status == ProgramStatus::Acting
            &&& total_of(usage) matches Some(total) ==> after.total_tokens == total
            &&& total_of(usage) is None && before.total_tokens + reported(events) <= u64::MAX
                ==> after.total_tokens == before.total_tokens + reported(events)
            &&& total_of(usage) is None && before.total_tokens + reported(events) > u64::MAX
                ==> after.total_tokens == u64::MAX
            &&& after.step_count == before.step_count
        }),
{
    let all = events.push(StreamEvent::Finish(usage));
    assert(all.drop_last() =~= events);
    tokens_told(programs, program_id, events);
}

/// No program is lost: a request, a completion and tokens that come in keep every program that there
/// was.
pub proof fn no_program_is_lost(
    programs: Map<Seq<char>, ProgramView>,
    key: Seq<char>,
    program_id: Seq<char>,
    context_len: usize,
    worker_url: Seq<char>,
    events: Seq<StreamEvent>,
)
    requires
        programs.contains_key(key),
    ensures
        prepared(programs, program_id, context_len, worker_url).contains_key(key),
        told_all(programs, program_id, events).contains_key(key),
    decreases events.len(),
{
    if events.len() > 0 {
        no_program_is_lost(
            programs,
            key,
            program_id,
            context_len,
            worker_url,
            events.drop_last(),
        );
    }
}

/// The program of a request is named by its `program_id`, whatever else it holds; only without one
/// by the `program_id` in its `extra_body`, where that is an object; and without either it is the
/// default one. A text names the program by its characters, any other value by what it is written
/// as.
pub proof fn a_request_names_its_program(
    body: Map<Seq<char>, Json>,
    extra: Map<Seq<char>, Json>,
    text: Seq<char>,
    other: Json,
)
    ensures
        ({
            let id = id_of_request(Json::Object(body));
            let top = body.contains_key("program_id"@);
            let within = body.contains_key("extra_body"@) && body["extra_body"@] == Json::Object(
                extra,
            );
            let inner = extra.contains_key("program_id"@);
            &&& top && body["program_id"@] == Json::Text(text) ==> id == text
            &&& top && !(body["program_id"@] is Text) ==> id == rendered(body["program_id"@])
            &&& !top && within && inner && extra["program_id"@] == Json::Text(text) ==> id == text
            &&& !top && within && inner && !(extra["program_id"@] is Text) ==> id == rendered(
                extra["program_id"@],
            )
            &&& !top && within && !inner ==> id == "default"@
            &&& !top && (!body.contains_key("extra_body"@) || !(body["extra_body"@] is Object))
                ==> id == "default"@
        }),
        !(other is Object) ==> id_of_request(other) == "default"@,
        id_of_value(Json::Text(text)) == text,
        !(other is Text) ==> id_of_value(other) == rendered(other),
{
}

/// A request is as long as the bytes that it is written as, and has no length where it cannot be
/// written. It streams if and only if its member `stream` is true.
pub proof fn a_request_is_as_long_as_its_bytes(
    bytes: Seq<u8>,
    body: Map<Seq<char>, Json>,
    other: Json,
)
    ensures
        written_len(Some(bytes)) == bytes.len(),
        written_len(None) == 0,
        asks_to_stream(Json::Object(body)) <==> body.contains_key("stream"@) && body["stream"@]
            == Json::Bool(true),
        !(other is Object) ==> !asks_to_stream(other),
{
}

/// A request can be counted unless its program is known and has counted as many as there can be; and
/// it can be routed if it can be counted, or if there is no worker to count it for.
pub proof fn only_a_full_count_stops_a_request(
    router: RouterView,
    program_id: Seq<char>,
    body: Json,
)
    ensures
        !router.programs.contains_key(program_id) ==> can_step(router.programs, program_id),
        router.programs.contains_key(program_id) ==> (can_step(router.programs, program_id)
            <==> router.programs[program_id].step_count < 0xffff_ffff_ffff_ffff),
        router.worker_urls.len() == 0 ==> can_route(router, body),
        router.worker_urls.len() > 0 ==> (can_route(router, body) <==> can_step(
            router.programs,
            id_of_request(body),
        )),
{
}

/// A request of a program is counted for that program, which is known from then on: it has one step
/// more, the length of the request, and a backend, the one offered if it had none. It holds the
/// tokens that it held, none if it is new.
pub proof fn a_request_is_counted_for_its_program(
    programs: Map<Seq<char>, ProgramView>,
    program_id: Seq<char>,
    context_len: usize,
    worker_url: Seq<char>,
)
    requires
        can_step(programs, program_id),
    ensures
        ({
            let after = prepared(programs, program_id, context_len, worker_url);
            let sent = after[program_id];
            let known = programs.contains_key(program_id);
            let before = programs[program_id];
            &&& after.dom() == programs.dom().insert(program_id)
            &&& forall|key: Seq<char>| #[trigger]
                programs.contains_key(key) && key != program_id ==> after[key] == programs[key]
            &&& sent.status == ProgramStatus::Reasoning && sent.state == ProgramState::Active
            &&& sent.context_len == context_len
            &&& known && before.backend_url is Some ==> sent.backend_url == before.backend_url
            &&& !known || before.backend_url is None ==> sent.backend_url == Some(worker_url)
            &&& known ==> sent.step_count == before.step_count + 1 && sent.total_tokens
                == before.total_tokens && sent.program_id == before.program_id
                && sent.waiting_notify == before.waiting_notify && sent.origin_backend
                == before.origin_backend && sent.paused_at_ms == before.paused_at_ms
                && sent.marked_for_pause == before.marked_for_pause && sent.acting_since_ms
                == before.acting_since_ms
            &&& !known ==> sent.step_count == 1 && sent.total_tokens == 0 && sent.program_id
                == program_id && sent.waiting_notify is None && sent.origin_backend is None
                && sent.paused_at_ms is None && !sent.marked_for_pause && sent.acting_since_ms
                is None
        }),
{
    let after = prepared(programs, program_id, context_len, worker_url);
    assert(after.dom() =~= programs.dom().insert(program_id));
}

/// A request of a program that is bound to no backend, be it new, paused before or whatever its step
/// count, adds one program to the backend that it is sent to, with the tokens that the program
/// holds. A request of a bound program moves no program.
pub proof fn a_request_takes_a_place_where_it_is_sent(
    programs: Map<Seq<char>, ProgramView>,
    program_id: Seq<char>,
    context_len: usize,
    worker_url: Seq<char>,
    other: Seq<char>,
)
    requires
        programs.dom().finite(),
        other != worker_url,
    ensures
        ({
            let after = prepared(programs, program_id, context_len, worker_url);
            let unbound = !programs.contains_key(program_id)
                || programs[program_id].backend_url is None;
            &&& unbound ==> program_count(after, worker_url) == program_count(programs, worker_url)
                + 1
            &&& !unbound ==> program_count(after, worker_url) == program_count(
                programs,
                worker_url,
            )
            &&& program_count(after, other) == program_count(programs, other)
            &&& unbound ==> program_tokens(after, worker_url, ProgramStatus::Reasoning)
                == program_tokens(programs, worker_url, ProgramStatus::Reasoning)
                + after[program_id].total_tokens
        }),
{
    let sent = prepared(programs, program_id, context_len, worker_url)[program_id];
    one_program_more(programs, one_on(worker_url), program_id, sent);
    one_program_more(programs, one_on(other), program_id, sent);
    one_program_more(
        programs,
        tokens_on(worker_url, ProgramStatus::Reasoning),
        program_id,
        sent,
    );
}

/// What a stream tells of a known program is taken in at once: tokens are added to what it holds, up
/// to the largest count there is; its end makes it act, with the total that the usage gives where it
/// gives one; a first token changes nothing. Of an unknown program nothing is taken in.
pub proof fn events_are_taken_in(
    programs: Map<Seq<char>, ProgramView>,
    program_id: Seq<char>,
    tokens: u64,
    usage: UsageTokens,
)
    ensures
        told(programs, program_id, StreamEvent::FirstToken) == programs,
        !programs.contains_key(program_id) ==> told(
            programs,
            program_id,
            StreamEvent::Progress(tokens),
        ) == programs && told(programs, program_id, StreamEvent::Finish(Some(usage))) == programs
            && told(programs, program_id, StreamEvent::Finish(None)) == programs,
        programs.contains_key(program_id) ==> ({
            let before = programs[program_id];
            let grown = told(programs, program_id, StreamEvent::Progress(tokens));
            let ended = told(programs, program_id, StreamEvent::Finish(Some(usage)));
            let bare = told(programs, program_id, StreamEvent::Finish(None));
            &&& grown == programs.insert(
                program_id,
                ProgramView { total_tokens: grown[program_id].total_tokens, ..before },
            )
            &&& before.total_tokens + tokens <= u64::MAX ==> grown[program_id].total_tokens
                == before.total_tokens + tokens
            &&& before.total_tokens + tokens > u64::MAX ==> grown[program_id].total_tokens
                == u64::MAX
            &&& ended == programs.insert(
                program_id,
                ProgramView {
                    status: ProgramStatus::Acting,
                    total_tokens: match usage.total_tokens {
                        Some(total) => total,
                        None => before.total_tokens,
                    },
                    ..before
                },
            )
            &&& bare == programs.insert(
                program_id,
                ProgramView { status: ProgramStatus::Acting, ..before },
            )
        }),
{
}

/// Events are taken in one after the other, each after those before it.
pub proof fn events_are_taken_in_turn(
    programs: Map<Seq<char>, ProgramView>,
    program_id: Seq<char>,
    events: Seq<StreamEvent>,
    next: StreamEvent,
)
    ensures
        told_all(programs, program_id, Seq::empty()) == programs,
        told_all(programs, program_id, events.push(next)) == told(
            told_all(programs, program_id, events),
            program_id,
            next,
        ),
{
    assert(events.push(next).drop_last() =~= events);
}

/// An answer that came at once is taken in like the end of a stream.
pub proof fn an_answer_is_taken_in_like_an_end(
    programs: Map<Seq<char>, ProgramView>,
    program_id: Seq<char>,
    usage: Option<UsageTokens>,
    total_tokens: u64,
)
    ensures
        completed(programs, program_id, total_of(usage)) == told(
            programs,
            program_id,
            StreamEvent::Finish(usage),
        ),
        programs.contains_key(program_id) ==> completed(
            programs,
            program_id,
            Some(total_tokens),
        )[program_id].total_tokens == total_tokens,
        usage matches Some(given) ==> total_of(usage) == given.total_tokens,
        usage is None ==> total_of(usage) is None,
{
}

/// A request goes to the first worker, without its program id and else as it came, streams if it
/// asks to, and is counted for its program with its own length; without workers it is refused, and
/// nothing is counted.
pub proof fn a_request_goes_to_the_first_worker(
    route: ChatRoute,
    before: RouterView,
    after: RouterView,
    body: Json,
)
    requires
        routes(route, before, after, body),
    ensures
        after.worker_urls == before.worker_urls,
        before.worker_urls.len() == 0 ==> after.programs == before.programs && route is Refused
            && route->Refused_0@ == (ResponseView::ServiceUnavailable {
            code: "no_workers"@,
            message: "Thunder mode has no worker URLs configured"@,
        }),
        before.worker_urls.len() > 0 ==> {
            &&& route is Forward
            &&& route->worker_url@ == before.worker_urls[0]
            &&& route->program_id@ == id_of_request(body)
            &&& json_of(route->payload) == without_program_id(body)
            &&& route->stream == asks_to_stream(body)
            &&& after.programs == prepared(
                before.programs,
                route->program_id@,
                written_len(serialized(body)) as usize,
                route->worker_url@,
            )
        },
{
}

/// The values of texts are those of each, in their order.
pub proof fn texts_keep_their_order(texts: Seq<String>, i: int)
    requires
        0 <= i < texts.len(),
    ensures
        texts_of(texts).len() == texts.len(),
        texts_of(texts)[i] == texts[i]@,
{
}

} // verus!
