//! What the server-sent events of a streamed completion say about its progress.

use crate::json::{field, json_of, parse_text, parsed_text, Json};
use crate::text::{
    chars_of, decode_lossy, end_without, is_white_space, text_between, trim_end_of,
    trim_end_of_takes_only_the_end, trim_white, trimmed_between, trimming_leaves_the_middle,
    utf8_lossy,
};
use crate::usage::{extract_usage, usage_of, UsageTokens};
use serde_json::Value;
use vstd::prelude::*;
use vstd::utf8::{decode_first_scalar, decode_utf8, pop_first_scalar, valid_utf8};

verus! {

/// How many tokens are reported at a time while a completion comes in.
pub const PROGRESS_STEP: u64 = 20;

/// Something that a stream tells about its request.
#[derive(Debug, Clone, Copy, PartialEq, Eq)]
pub enum StreamEvent {
    /// The first piece of content came.
    FirstToken,
    /// So many more tokens came.
    Progress(u64),
    /// The stream is over, with the usage that it reported last.
    Finish(Option<UsageTokens>),
}

/// Where a stream stands.
pub struct Standing {
    pub usage: Option<UsageTokens>,
    pub first_token_seen: bool,
    pub pending: int,
    pub finish_due: bool,
}

/// Where a stream stands, with the line that is not complete yet.
pub struct StreamView {
    pub rest: Seq<char>,
    pub standing: Standing,
}

/// How many tokens a piece of content is taken for: one for every four characters begun, and at
/// least one.
pub open spec fn estimated_tokens(content: Seq<char>) -> int {
    if content.len() == 0 {
        1
    } else {
        (content.len() as int + 3) / 4
    }
}

/// So many steps of progress.
pub open spec fn progress_steps(n: nat) -> Seq<StreamEvent> {
    Seq::new(n, |i: int| StreamEvent::Progress(PROGRESS_STEP))
}

impl Standing {
    /// A stream of which nothing has come yet.
    pub open spec fn start(finish_due: bool) -> Standing {
        Standing { usage: None, first_token_seen: false, pending: 0, finish_due }
    }

    /// A piece of content came.
    pub open spec fn content(self, content: Seq<char>) -> (Standing, Seq<StreamEvent>) {
        let tokens = self.pending + estimated_tokens(content);
        let first = if self.first_token_seen {
            Seq::empty()
        } else {
            seq![StreamEvent::FirstToken]
        };
        let steps = progress_steps((tokens / PROGRESS_STEP as int) as nat);
        (
            Standing { first_token_seen: true, pending: tokens % PROGRESS_STEP as int, ..self },
            first + steps,
        )
    }

    /// A chunk's choices came.
    pub open spec fn choices(self, choices: Seq<Json>) -> (Standing, Seq<StreamEvent>)
        decreases choices.len(),
    {
        if choices.len() == 0 {
            (self, Seq::empty())
        } else {
            let (before, events) = self.choices(choices.drop_last());
            match delta_content(choices.last()) {
                Some(content) => {
                    let (after, more) = before.content(content);
                    (after, events + more)
                },
                None => (before, events),
            }
        }
    }

    /// A chunk came.
    pub open spec fn payload(self, payload: Json) -> (Standing, Seq<StreamEvent>) {
        let usage = usage_of(payload);
        let standing = if usage is Some {
            Standing { usage, ..self }
        } else {
            self
        };
        standing.choices(choices_of(payload))
    }

    /// A complete line came.
    pub open spec fn line(self, line: Seq<char>) -> (Standing, Seq<StreamEvent>) {
        match data_of(line) {
            Some(data) => match parsed_text(data) {
                Some(payload) => self.payload(payload),
                None => (self, Seq::empty()),
            },
            None => (self, Seq::empty()),
        }
    }

    /// The complete lines at the start of `text` came; what follows the last of them is left.
    pub open spec fn lines(self, text: Seq<char>) -> (StreamView, Seq<StreamEvent>)
        decreases text.len(),
    {
        let end = line_end(text);
        if 0 <= end < text.len() {
            let (standing, events) = self.line(text.take(end));
            let (after, more) = standing.lines(text.skip(end + 1));
            (after, events + more)
        } else {
            (StreamView { rest: text, standing: self }, Seq::empty())
        }
    }

    /// Whether the stream reported how many tokens the request took in all.
    pub open spec fn total_known(self) -> bool {
        self.usage is Some && self.usage->0.total_tokens is Some
    }

    /// The stream is over: tokens not reported yet are, unless the total is known; and the end is
    /// reported, unless it was before.
    pub open spec fn finished(self) -> (Standing, Seq<StreamEvent>) {
        let flush = !self.total_known() && self.pending > 0;
        let progress = if flush {
            seq![StreamEvent::Progress(self.pending as u64)]
        } else {
            Seq::empty()
        };
        let finish = if self.finish_due {
            seq![StreamEvent::Finish(self.usage)]
        } else {
            Seq::empty()
        };
        (
            Standing {
                pending: if flush {
                    0
                } else {
                    self.pending
                },
                finish_due: false,
                ..self
            },
            progress + finish,
        )
    }
}

impl StreamView {
    /// Less than a step waits to be reported, and no complete line is left.
    pub open spec fn wf(self) -> bool {
        &&& 0 <= self.standing.pending < PROGRESS_STEP
        &&& line_end(self.rest) == self.rest.len()
    }

    /// More text came.
    pub open spec fn text(self, text: Seq<char>) -> (StreamView, Seq<StreamEvent>) {
        self.standing.lines(self.rest + text)
    }
}

/// The choices of a chunk.
pub open spec fn choices_of(payload: Json) -> Seq<Json> {
    match payload.field("choices"@) {
        Some(choices) => choices.items(),
        None => Seq::empty(),
    }
}

/// The content that a choice adds, if it adds any.
pub open spec fn delta_content(choice: Json) -> Option<Seq<char>> {
    match choice.field("delta"@) {
        Some(delta) => match delta.field("content"@) {
            Some(content) => content.text(),
            None => None,
        },
        None => None,
    }
}

/// Where the first line of `text` ends; the length of `text` if it holds no complete line.
pub open spec fn line_end(text: Seq<char>) -> int
    decreases text.len(),
{
    if text.len() == 0 || text.first() == '\n' {
        0
    } else {
        1 + line_end(text.drop_first())
    }
}

/// The data of a line: what follows `data:`, without the carriage returns at the end of the line and
/// the white space around the data. Other lines have none, nor have empty data and the end mark.
pub open spec fn data_of(line: Seq<char>) -> Option<Seq<char>> {
    let line = trim_end_of(line, '\r');
    if "data:"@.is_prefix_of(line) {
        let data = trim_white(line.skip("data:"@.len() as int));
        if data.len() == 0 || data == "[DONE]"@ {
            None
        } else {
            Some(data)
        }
    } else {
        None
    }
}

/// The data of a line.
pub fn sse_data(line: &Vec<char>) -> (r: Option<String>)
    ensures
        (match r {
            Some(data) => Some(data@),
            None => None,
        }) == data_of(line@),
{
    let end = end_without(line, line.len(), '\r');
    proof {
        assert(line@.take(line@.len() as int) == line@);
    }
    let ghost trimmed = trim_end_of(line@, '\r');
    let prefix = chars_of("data:");
    let mut i: usize = 0;
    while i < prefix.len() && i < end && line[i] == prefix[i]
        invariant
            i <= prefix@.len(),
            i <= end <= line@.len(),
            forall|j: int| 0 <= j < i ==> line@[j] == prefix@[j],
        decreases prefix@.len() - i,
    {
        i = i + 1;
    }
    if i < prefix.len() {
        proof {
            if prefix@.is_prefix_of(trimmed) {
                assert(prefix@ == trimmed.subrange(0, prefix@.len() as int));
                assert(trimmed[i as int] == prefix@[i as int]);
                assert(false);
            }
        }
        return None;
    }
    proof {
        assert(prefix@ =~= trimmed.subrange(0, prefix@.len() as int));
        assert(line@.subrange(i as int, end as int) == trimmed.skip(i as int));
    }
    let (start, stop) = trimmed_between(line, i, end);
    let data = text_between(line, start, stop);
    if start == stop || data == "[DONE]".to_owned() {
        None
    } else {
        Some(data)
    }
}

/// Follows a streamed completion and tells what happens in it.
#[derive(Debug)]
pub struct StreamingProgramFinisher {
    sse_buffer: Vec<char>,
    usage: Option<UsageTokens>,
    first_token_seen: bool,
    pending_progress_tokens: u64,
    finish_due: bool,
}

impl View for StreamingProgramFinisher {
    type V = StreamView;

    closed spec fn view(&self) -> StreamView {
        StreamView {
            rest: self.sse_buffer@,
            standing: Standing {
                usage: self.usage,
                first_token_seen: self.first_token_seen,
                pending: self.pending_progress_tokens as int,
                finish_due: self.finish_due,
            },
        }
    }
}

proof fn a_step_more(n: nat)
    ensures
        progress_steps(n).push(
            StreamEvent::Progress(PROGRESS_STEP),
        ) == progress_steps(n + 1),
{
}

impl StreamingProgramFinisher {
    /// Follows a new stream, whose end is reported if `finish_due`.
    pub fn new(finish_due: bool) -> (r: StreamingProgramFinisher)
        ensures
            r@ == (StreamView { rest: Seq::empty(), standing: Standing::start(finish_due) }),
            r@.wf(),
    {
        StreamingProgramFinisher {
            sse_buffer: Vec::new(),
            usage: None,
            first_token_seen: false,
            pending_progress_tokens: 0,
            finish_due,
        }
    }

    /// Takes in a piece of content and adds what it tells to `events`.
    pub fn observe_content_delta(&mut self, content: &str, events: &mut Vec<StreamEvent>)
        requires
            old(self)@.wf(),
        ensures
            final(self)@.wf(),
            final(self)@.rest == old(self)@.rest,
            final(self)@.standing == old(self)@.standing.content(content@).0,
            final(events)@ == old(events)@ + old(self)@.standing.content(content@).1,
    {
        let ghost standing = self@.standing;
        let ghost tokens = standing.pending + estimated_tokens(content@);
        if !self.first_token_seen {
            self.first_token_seen = true;
            events.push(StreamEvent::FirstToken);
        }
        let ghost told = events@;
        let characters: u64 = content.unicode_len() as u64;
        let quarter: u64 = characters / 4;
        let estimated: u64 = if characters == 0 {
            1
        } else if characters % 4 == 0 {
            quarter
        } else {
            quarter + 1
        };
        self.pending_progress_tokens = self.pending_progress_tokens.saturating_add(estimated);
        let ghost mut steps: nat = 0;
        proof {
            assert(progress_steps(0) =~= Seq::empty());
        }
        while self.pending_progress_tokens >= PROGRESS_STEP
            invariant
                self@.rest == old(self)@.rest,
                self@.standing.usage == standing.usage,
                self@.standing.finish_due == standing.finish_due,
                self@.standing.first_token_seen,
                self@.standing.pending == self.pending_progress_tokens,
                tokens == self.pending_progress_tokens + steps * PROGRESS_STEP,
                events@ == told + progress_steps(steps),
            decreases self.pending_progress_tokens,
        {
            events.push(StreamEvent::Progress(PROGRESS_STEP));
            self.pending_progress_tokens = self.pending_progress_tokens - PROGRESS_STEP;
            proof {
                a_step_more(steps);
                steps = steps + 1;
            }
        }
        proof {
            vstd::arithmetic::div_mod::lemma_fundamental_div_mod_converse(
                tokens,
                PROGRESS_STEP as int,
                steps as int,
                self.pending_progress_tokens as int,
            );
        }
    }

    /// Takes in a chunk and adds what it tells to `events`.
    pub fn observe_payload(&mut self, payload: &Value, events: &mut Vec<StreamEvent>)
        requires
            old(self)@.wf(),
        ensures
            final(self)@.wf(),
            final(self)@.rest == old(self)@.rest,
            final(self)@.standing == old(self)@.standing.payload(json_of(*payload)).0,
            final(events)@ == old(events)@ + old(self)@.standing.payload(json_of(*payload)).1,
    {
        if let Some(usage) = extract_usage(payload) {
            self.usage = Some(usage);
        }
        let ghost standing = self@.standing;
        let ghost told = events@;
        let choices = match field(payload, "choices") {
            Some(choices) => choices.as_array(),
            None => None,
        };
        match choices {
            Some(choices) => {
                let ghost documents = choices@.map_values(|choice: Value| json_of(choice));
                let mut n: usize = 0;
                proof {
                    assert(documents.take(0) =~= Seq::empty());
                }
                while n < choices.len()
                    invariant
                        n <= choices@.len(),
                        documents == choices@.map_values(|choice: Value| json_of(choice)),
                        self@.wf(),
                        self@.rest == old(self)@.rest,
                        self@.standing == standing.choices(documents.take(n as int)).0,
                        events@ == told + standing.choices(documents.take(n as int)).1,
                    decreases choices@.len() - n,
                {
                    proof {
                        assert(documents.take(n + 1).drop_last() == documents.take(n as int));
                        assert(documents.take(n + 1).last() == json_of(choices@[n as int]));
                    }
                    let content = match field(&choices[n], "delta") {
                        Some(delta) => match field(delta, "content") {
                            Some(content) => content.as_str(),
                            None => None,
                        },
                        None => None,
                    };
                    if let Some(content) = content {
                        self.observe_content_delta(content, events);
                    }
                    n = n + 1;
                }
                proof {
                    assert(documents.take(documents.len() as int) == documents);
                }
            },
            None => {},
        }
    }

    /// Takes in a complete line and adds what it tells to `events`.
    fn observe_line(&mut self, line: &Vec<char>, events: &mut Vec<StreamEvent>)
        requires
            old(self)@.wf(),
        ensures
            final(self)@.wf(),
            final(self)@.rest == old(self)@.rest,
            final(self)@.standing == old(self)@.standing.line(line@).0,
            final(events)@ == old(events)@ + old(self)@.standing.line(line@).1,
    {
        if let Some(data) = sse_data(line) {
            if let Ok(payload) = parse_text(data.as_str()) {
                self.observe_payload(&payload, events);
            }
        }
    }

    /// Takes in text and tells what its complete lines say.
    pub fn observe_text(&mut self, text: &str) -> (events: Vec<StreamEvent>)
        requires
            old(self)@.wf(),
        ensures
            final(self)@.wf(),
            (final(self)@, events@) == old(self)@.text(text@),
    {
        let mut events: Vec<StreamEvent> = Vec::new();
        let ghost held = self@.rest;
        let ghost all = held + text@;
        let ghost standing = self@.standing;
        let chars = chars_of(text);
        let mut line: Vec<char> = Vec::new();
        std::mem::swap(&mut line, &mut self.sse_buffer);
        let mut n: usize = 0;
        let ghost mut start: int = 0;
        proof {
            no_line_before_its_end(held);
            assert(all.skip(0) == all);
            assert(all.subrange(0, held.len() as int) == held);
        }
        while n < chars.len()
            invariant
                chars@ == text@,
                all == held + text@,
                n <= text@.len(),
                0 <= start <= held.len() + n,
                line@ == all.subrange(start, held.len() + n),
                forall|i: int| start <= i < held.len() + n ==> all[i] != '\n',
                self@.wf(),
                self@.rest.len() == 0,
                standing.lines(all) == (
                    self@.standing.lines(all.skip(start)).0,
                    events@ + self@.standing.lines(all.skip(start)).1,
                ),
            decreases text@.len() - n,
        {
            let c: char = chars[n];
            let ghost here = held.len() + n;
            assert(all[here] == c);
            if c == '\n' {
                let ghost left = all.skip(start);
                let ghost before = self@.standing;
                let ghost told = events@;
                let ghost whole = line@;
                proof {
                    line_end_is_determined(left, here - start);
                    assert(left.take(here - start) == whole);
                    assert(left.skip(here - start + 1) == all.skip(here + 1));
                }
                self.observe_line(&line, &mut events);
                line.clear();
                proof {
                    let after = self@.standing.lines(all.skip(here + 1));
                    assert(before.lines(left) == (after.0, before.line(whole).1 + after.1));
                    assert(told + (before.line(whole).1 + after.1) == events@ + after.1);
                    start = here + 1;
                }
            } else {
                line.push(c);
            }
            n = n + 1;
        }
        proof {
            line_end_is_determined(all.skip(start), all.len() - start);
            assert(all.skip(start) == line@);
        }
        self.sse_buffer = line;
        events
    }

    /// Takes in bytes of the response and tells what their complete lines say. Bytes that are not
    /// well-formed UTF-8 are replaced.
    pub fn observe_chunk(&mut self, chunk: &[u8]) -> (events: Vec<StreamEvent>)
        requires
            old(self)@.wf(),
        ensures
            final(self)@.wf(),
            (final(self)@, events@) == old(self)@.text(utf8_lossy(chunk@)),
            valid_utf8(chunk@) ==> (final(self)@, events@) == old(self)@.text(
                decode_utf8(chunk@),
            ),
    {
        let text = decode_lossy(chunk);
        self.observe_text(text.as_str())
    }

    /// Ends the stream and tells what is left to tell.
    pub fn finish(&mut self) -> (events: Vec<StreamEvent>)
        requires
            old(self)@.wf(),
        ensures
            final(self)@.wf(),
            final(self)@.rest == old(self)@.rest,
            (final(self)@.standing, events@) == old(self)@.standing.finished(),
    {
        let mut events: Vec<StreamEvent> = Vec::new();
        let total_known = match self.usage {
            Some(usage) => usage.total_tokens().is_some(),
            None => false,
        };
        if !total_known && self.pending_progress_tokens > 0 {
            events.push(StreamEvent::Progress(self.pending_progress_tokens));
            self.pending_progress_tokens = 0;
        }
        if self.finish_due {
            self.finish_due = false;
            events.push(StreamEvent::Finish(self.usage));
        }
        proof {
            assert(events@ =~= old(self)@.standing.finished().1);
        }
        events
    }
}

proof fn no_line_before_its_end(text: Seq<char>)
    ensures
        0 <= line_end(text) <= text.len(),
        forall|i: int| 0 <= i < line_end(text) ==> text[i] != '\n',
        line_end(text) < text.len() ==> text[line_end(text)] == '\n',
    decreases text.len(),
{
    if text.len() > 0 && text.first() != '\n' {
        let rest = text.drop_first();
        no_line_before_its_end(rest);
        assert forall|i: int| 0 <= i < line_end(text) implies text[i] != '\n' by {
            if i > 0 {
                assert(text[i] == rest[i - 1]);
            }
        }
    }
}

proof fn line_end_is_determined(text: Seq<char>, n: int)
    requires
        0 <= n <= text.len(),
        forall|i: int| 0 <= i < n ==> text[i] != '\n',
        n < text.len() ==> text[n] == '\n',
    ensures
        line_end(text) == n,
    decreases text.len(),
{
    if n > 0 {
        let rest = text.drop_first();
        assert forall|i: int| 0 <= i < n - 1 implies rest[i] != '\n' by {
            assert(rest[i] == text[i + 1]);
        }
        line_end_is_determined(rest, n - 1);
    }
}

proof fn lines_in_pieces(standing: Standing, first: Seq<char>, second: Seq<char>)
    ensures
        ({
            let (middle, events) = standing.lines(first);
            let (end, more) = middle.text(second);
            standing.lines(first + second) == (end, events + more)
        }),
    decreases first.len(),
{
    let whole = first + second;
    let end = line_end(first);
    no_line_before_its_end(first);
    if end < first.len() {
        line_end_is_determined(whole, end);
        assert(whole.take(end) == first.take(end));
        assert(whole.skip(end + 1) == first.skip(end + 1) + second);
        let (after, events) = standing.line(first.take(end));
        lines_in_pieces(after, first.skip(end + 1), second);
        let (middle, more) = after.lines(first.skip(end + 1));
        let (last, most) = middle.text(second);
        assert(events + (more + most) == (events + more) + most);
    } else {
        let (last, more) = standing.lines(whole);
        assert(Seq::<StreamEvent>::empty() + more == more);
    }
}

/// Where a stream is cut into pieces does not matter: two pieces of text, one after the other, tell
/// what they tell together.
pub proof fn text_may_come_in_pieces(stream: StreamView, first: Seq<char>, second: Seq<char>)
    ensures
        ({
            let (middle, events) = stream.text(first);
            let (end, more) = middle.text(second);
            stream.text(first + second) == (end, events + more)
        }),
{
    assert(stream.rest + (first + second) == (stream.rest + first) + second);
    lines_in_pieces(stream.standing, stream.rest + first, second);
}

/// The same holds of bytes that are cut between characters.
pub proof fn bytes_may_come_in_pieces(stream: StreamView, first: Seq<u8>, second: Seq<u8>)
    requires
        valid_utf8(first),
        valid_utf8(second),
    ensures
        valid_utf8(first + second),
        ({
            let (middle, events) = stream.text(decode_utf8(first));
            let (end, more) = middle.text(decode_utf8(second));
            stream.text(decode_utf8(first + second)) == (end, events + more)
        }),
{
    decoding_goes_by_pieces(first, second);
    text_may_come_in_pieces(stream, decode_utf8(first), decode_utf8(second));
}

proof fn decoding_goes_by_pieces(first: Seq<u8>, second: Seq<u8>)
    requires
        valid_utf8(first),
        valid_utf8(second),
    ensures
        valid_utf8(first + second),
        decode_utf8(first + second) == decode_utf8(first) + decode_utf8(second),
    decreases first.len(),
{
    let whole = first + second;
    if first.len() == 0 {
        assert(whole == second);
        assert(decode_utf8(first) + decode_utf8(second) == decode_utf8(second));
    } else {
        let rest = pop_first_scalar(first);
        assert(rest.len() < first.len());
        decoding_goes_by_pieces(rest, second);
        assert(pop_first_scalar(whole) == rest + second);
        assert(decode_first_scalar(whole) == decode_first_scalar(first));
        let head = seq![decode_first_scalar(first) as char];
        assert(head + (decode_utf8(rest) + decode_utf8(second)) == (head + decode_utf8(rest))
            + decode_utf8(second));
    }
}

/// The tokens that events report.
pub open spec fn reported(events: Seq<StreamEvent>) -> int
    decreases events.len(),
{
    if events.len() == 0 {
        0
    } else {
        reported(events.drop_last()) + match events.last() {
            StreamEvent::Progress(tokens) => tokens as int,
            _ => 0,
        }
    }
}

/// How often events report a first token.
pub open spec fn first_tokens(events: Seq<StreamEvent>) -> int
    decreases events.len(),
{
    if events.len() == 0 {
        0
    } else {
        first_tokens(events.drop_last()) + match events.last() {
            StreamEvent::FirstToken => 1int,
            _ => 0,
        }
    }
}

/// How often events report the end.
pub open spec fn finishes(events: Seq<StreamEvent>) -> int
    decreases events.len(),
{
    if events.len() == 0 {
        0
    } else {
        finishes(events.drop_last()) + match events.last() {
            StreamEvent::Finish(_) => 1int,
            _ => 0,
        }
    }
}

/// The tokens that a chunk's choices are taken for.
pub open spec fn estimated_in(choices: Seq<Json>) -> int
    decreases choices.len(),
{
    if choices.len() == 0 {
        0
    } else {
        estimated_in(choices.drop_last()) + match delta_content(choices.last()) {
            Some(content) => estimated_tokens(content),
            None => 0,
        }
    }
}

/// The tokens that the complete lines of a text are taken for.
pub open spec fn estimated_in_lines(text: Seq<char>) -> int
    decreases text.len(),
{
    let end = line_end(text);
    if 0 <= end < text.len() {
        let first = match data_of(text.take(end)) {
            Some(data) => match parsed_text(data) {
                Some(payload) => estimated_in(choices_of(payload)),
                None => 0,
            },
            None => 0,
        };
        first + estimated_in_lines(text.skip(end + 1))
    } else {
        0
    }
}

proof fn tallies_add_up(first: Seq<StreamEvent>, second: Seq<StreamEvent>)
    ensures
        reported(first + second) == reported(first) + reported(second),
        first_tokens(first + second) == first_tokens(first) + first_tokens(second),
        finishes(first + second) == finishes(first) + finishes(second),
    decreases second.len(),
{
    if second.len() == 0 {
        assert(first + second == first);
    } else {
        tallies_add_up(first, second.drop_last());
        assert((first + second).drop_last() == first + second.drop_last());
    }
}

proof fn tallies_of_one(event: StreamEvent)
    ensures
        reported(seq![event]) == match event {
            StreamEvent::Progress(tokens) => tokens as int,
            _ => 0,
        },
        first_tokens(seq![event]) == match event {
            StreamEvent::FirstToken => 1int,
            _ => 0,
        },
        finishes(seq![event]) == match event {
            StreamEvent::Finish(_) => 1int,
            _ => 0,
        },
{
    let none = Seq::<StreamEvent>::empty();
    assert(seq![event].drop_last() =~= none);
    assert(reported(none) == 0 && first_tokens(none) == 0 && finishes(none) == 0);
}

proof fn tallies_of_steps(n: nat)
    ensures
        reported(progress_steps(n)) == n * PROGRESS_STEP,
        first_tokens(progress_steps(n)) == 0,
        finishes(progress_steps(n)) == 0,
    decreases n,
{
    if n > 0 {
        tallies_of_steps((n - 1) as nat);
        a_step_more((n - 1) as nat);
        let shorter = progress_steps((n - 1) as nat);
        assert(progress_steps(n).drop_last() == shorter);
    }
}

/// No token of a piece of content is lost or counted twice: what is reported and what waits make up
/// what waited before and what the content is taken for. A first token is reported if and only if
/// none was before, and the end is not.
pub proof fn content_is_counted(standing: Standing, content: Seq<char>)
    requires
        0 <= standing.pending,
    ensures
        ({
            let (after, events) = standing.content(content);
            &&& reported(events) + after.pending == standing.pending + estimated_tokens(content)
            &&& 0 <= after.pending < PROGRESS_STEP
            &&& first_tokens(events) == if standing.first_token_seen {
                0int
            } else {
                1
            }
            &&& after.first_token_seen
            &&& finishes(events) == 0
        }),
{
    let tokens = standing.pending + estimated_tokens(content);
    let n = (tokens / PROGRESS_STEP as int) as nat;
    let first = if standing.first_token_seen {
        Seq::empty()
    } else {
        seq![StreamEvent::FirstToken]
    };
    tallies_of_steps(n);
    tallies_add_up(first, progress_steps(n));
    tallies_of_one(StreamEvent::FirstToken);
}

/// No token of a chunk is lost or counted twice, at most one first token is ever reported, and the
/// end is not.
pub proof fn choices_are_counted(standing: Standing, choices: Seq<Json>)
    requires
        0 <= standing.pending,
    ensures
        ({
            let (after, events) = standing.choices(choices);
            &&& reported(events) + after.pending == standing.pending + estimated_in(choices)
            &&& 0 <= after.pending
            &&& first_tokens(events) + if standing.first_token_seen {
                1int
            } else {
                0
            } == if after.first_token_seen {
                1int
            } else {
                0
            }
            &&& finishes(events) == 0
        }),
    decreases choices.len(),
{
    if choices.len() > 0 {
        let (before, events) = standing.choices(choices.drop_last());
        choices_are_counted(standing, choices.drop_last());
        if let Some(content) = delta_content(choices.last()) {
            content_is_counted(before, content);
            tallies_add_up(events, before.content(content).1);
        }
    }
}

/// No token of a streamed text is lost or counted twice, at most one first token is ever reported,
/// and text never reports the end.
pub proof fn a_text_is_counted(standing: Standing, text: Seq<char>)
    requires
        0 <= standing.pending,
    ensures
        ({
            let (after, events) = standing.lines(text);
            &&& reported(events) + after.standing.pending == standing.pending
                + estimated_in_lines(text)
            &&& first_tokens(events) + if standing.first_token_seen {
                1int
            } else {
                0
            } == if after.standing.first_token_seen {
                1int
            } else {
                0
            }
            &&& 0 <= after.standing.pending
            &&& finishes(events) == 0
            &&& after.standing.finish_due == standing.finish_due
        }),
    decreases text.len(),
{
    let end = line_end(text);
    no_line_before_its_end(text);
    if end < text.len() {
        let line = text.take(end);
        let (middle, events) = standing.line(line);
        assert(reported(Seq::<StreamEvent>::empty()) == 0);
        if let Some(data) = data_of(line) {
            if let Some(payload) = parsed_text(data) {
                let usage = usage_of(payload);
                let read = if usage is Some {
                    Standing { usage, ..standing }
                } else {
                    standing
                };
                choices_are_counted(read, choices_of(payload));
                choices_keep_the_end_due(read, choices_of(payload));
            }
        }
        a_text_is_counted(middle, text.skip(end + 1));
        tallies_add_up(events, middle.lines(text.skip(end + 1)).1);
    }
}

proof fn choices_keep_the_end_due(standing: Standing, choices: Seq<Json>)
    ensures
        standing.choices(choices).0.finish_due == standing.finish_due,
        standing.choices(choices).0.usage == standing.usage,
    decreases choices.len(),
{
    if choices.len() > 0 {
        choices_keep_the_end_due(standing, choices.drop_last());
    }
}

/// The end is reported once: finishing a finished stream tells nothing, and after a finish no later
/// one reports the end again. Without a known total no token is left unreported.
pub proof fn a_stream_ends_once(standing: Standing)
    requires
        0 <= standing.pending <= u64::MAX,
    ensures
        finishes(standing.finished().1) == if standing.finish_due {
            1int
        } else {
            0
        },
        !standing.finished().0.finish_due,
        standing.finished().0.finished() == (standing.finished().0, Seq::<StreamEvent>::empty()),
        !standing.total_known() ==> reported(standing.finished().1) == standing.pending
            && standing.finished().0.pending == 0,
        standing.total_known() ==> reported(standing.finished().1) == 0,
{
    let progress = if !standing.total_known() && standing.pending > 0 {
        seq![StreamEvent::Progress(standing.pending as u64)]
    } else {
        Seq::empty()
    };
    let finish = if standing.finish_due {
        seq![StreamEvent::Finish(standing.usage)]
    } else {
        Seq::empty()
    };
    tallies_add_up(progress, finish);
    tallies_of_one(StreamEvent::Progress(standing.pending as u64));
    tallies_of_one(StreamEvent::Finish(standing.usage));
    assert(standing.finished().0.finished().1 =~= Seq::<StreamEvent>::empty());
}

/// Four characters are a token, what is left over is one more, and no content is less than one.
pub proof fn four_characters_are_a_token(content: Seq<char>)
    ensures
        estimated_tokens(content) >= 1,
        content.len() == 0 ==> estimated_tokens(content) == 1,
        content.len() > 0 ==> 4 * (estimated_tokens(content) - 1) < content.len() <= 4
            * estimated_tokens(content),
{
}

/// A stream of which nothing has come yet has told nothing and has nothing to tell but its end, if
/// that is due.
pub proof fn a_stream_begins_with_nothing(finish_due: bool)
    ensures
        Standing::start(finish_due).usage is None,
        !Standing::start(finish_due).first_token_seen,
        Standing::start(finish_due).pending == 0,
        Standing::start(finish_due).finish_due == finish_due,
{
}

/// A piece of content tells a first token, if none was told before, and then steps of 20 tokens,
/// and nothing else. Together with what waits then, the steps make up what waited before and a token
/// for every four characters.
pub proof fn content_is_told_in_steps_of_twenty(standing: Standing, content: Seq<char>)
    requires
        0 <= standing.pending,
    ensures
        ({
            let (after, events) = standing.content(content);
            let first = if standing.first_token_seen {
                0int
            } else {
                1
            };
            let tokens = 20 * (events.len() - first) + after.pending - standing.pending;
            &&& first <= events.len()
            &&& !standing.first_token_seen ==> events[0] == StreamEvent::FirstToken
            &&& forall|i: int|
                first <= i < events.len() ==> #[trigger] events[i] == StreamEvent::Progress(20)
            &&& 0 <= after.pending < 20
            &&& content.len() == 0 ==> tokens == 1
            &&& content.len() > 0 ==> 4 * (tokens - 1) < content.len() <= 4 * tokens
            &&& after.first_token_seen
            &&& after.usage == standing.usage
            &&& after.finish_due == standing.finish_due
        }),
{
    let tokens = standing.pending + estimated_tokens(content);
    assert(tokens == 20 * (tokens / 20) + tokens % 20);
}

/// The content of a choice is the text under `content` in the object under `delta`, whatever else
/// the choice or its delta holds; in every other case a choice has no content.
pub proof fn the_content_of_a_choice_is_that_of_its_delta(
    choice: Map<Seq<char>, Json>,
    delta: Map<Seq<char>, Json>,
    text: Seq<char>,
)
    ensures
        choice.contains_key("delta"@) && choice["delta"@] == Json::Object(delta) ==> (
        delta_content(Json::Object(choice)) == Some(text) <==> delta.contains_key("content"@)
            && delta["content"@] == Json::Text(text)),
        !choice.contains_key("delta"@) || !(choice["delta"@] is Object) ==> delta_content(
            Json::Object(choice),
        ) is None,
{
}

/// A choice that is no object has no content.
pub proof fn only_an_object_has_content(choice: Json)
    requires
        !(choice is Object),
    ensures
        delta_content(choice) is None,
{
}

proof fn one_choice_decides_for_itself(
    standing: Standing,
    choices: Seq<Json>,
    i: int,
    other: Json,
)
    requires
        0 <= i < choices.len(),
        delta_content(other) == delta_content(choices[i]),
    ensures
        standing.choices(choices.update(i, other)) == standing.choices(choices),
    decreases choices.len(),
{
    let updated = choices.update(i, other);
    if i < choices.len() - 1 {
        one_choice_decides_for_itself(standing, choices.drop_last(), i, other);
        assert(updated.drop_last() =~= choices.drop_last().update(i, other));
    } else {
        assert(updated.drop_last() =~= choices.drop_last());
    }
}

/// Members of a choice other than `delta`, and of its delta other than `content`, change nothing:
/// neither the events nor the tokens of the chunk.
pub proof fn other_members_of_a_choice_change_nothing(
    standing: Standing,
    choices: Seq<Json>,
    i: int,
    choice: Map<Seq<char>, Json>,
    delta: Map<Seq<char>, Json>,
    key: Seq<char>,
    value: Json,
)
    requires
        0 <= i < choices.len(),
        choices[i] == Json::Object(choice),
    ensures
        key != "delta"@ ==> standing.choices(
            choices.update(i, Json::Object(choice.insert(key, value))),
        ) == standing.choices(choices),
        key != "content"@ && choice.contains_key("delta"@) && choice["delta"@] == Json::Object(
            delta,
        ) ==> standing.choices(
            choices.update(
                i,
                Json::Object(choice.insert("delta"@, Json::Object(delta.insert(key, value)))),
            ),
        ) == standing.choices(choices),
{
    if key != "delta"@ {
        one_choice_decides_for_itself(
            standing,
            choices,
            i,
            Json::Object(choice.insert(key, value)),
        );
    }
    if key != "content"@ && choice.contains_key("delta"@) && choice["delta"@] == Json::Object(
        delta,
    ) {
        one_choice_decides_for_itself(
            standing,
            choices,
            i,
            Json::Object(choice.insert("delta"@, Json::Object(delta.insert(key, value)))),
        );
    }
}

/// The choices of a chunk are taken in turn: each that has content tells what that content tells,
/// after what those before it told, and the others tell nothing.
pub proof fn choices_are_taken_in_turn(
    standing: Standing,
    choices: Seq<Json>,
    next: Json,
    delta: Map<Seq<char>, Json>,
    text: Seq<char>,
)
    ensures
        standing.choices(Seq::empty()) == (standing, Seq::<StreamEvent>::empty()),
        next.field("delta"@) == Some(Json::Object(delta)) && delta.contains_key("content"@)
            && delta["content"@] == Json::Text(text) ==> standing.choices(choices.push(next)) == (
            standing.choices(choices).0.content(text).0,
            standing.choices(choices).1 + standing.choices(choices).0.content(text).1,
        ),
        delta_content(next) is None ==> standing.choices(choices.push(next)) == standing.choices(
            choices,
        ),
{
    assert(choices.push(next).drop_last() =~= choices);
}

/// The choices of a chunk are the items of the array under `choices`, all of them and in order; a
/// chunk without one has none.
pub proof fn the_choices_of_a_chunk_are_its_items(
    payload: Map<Seq<char>, Json>,
    items: Seq<Json>,
    other: Json,
)
    ensures
        payload.contains_key("choices"@) && payload["choices"@] == Json::Array(items)
            ==> choices_of(Json::Object(payload)) == items,
        !payload.contains_key("choices"@) || !(payload["choices"@] is Array) ==> choices_of(
            Json::Object(payload),
        ) == Seq::<Json>::empty(),
        !(other is Object) ==> choices_of(other) == Seq::<Json>::empty(),
{
}

/// A chunk tells exactly what its choices tell. The usage that it reports, if it reports one,
/// replaces the one known; its choices have no part in that, and nothing else changes but by them.
pub proof fn a_chunk_tells_what_its_choices_tell(standing: Standing, payload: Json)
    ensures
        ({
            let (after, events) = standing.payload(payload);
            let (alone, told) = standing.choices(choices_of(payload));
            &&& events == told
            &&& after.pending == alone.pending
            &&& after.first_token_seen == alone.first_token_seen
            &&& after.finish_due == standing.finish_due
            &&& usage_of(payload) is Some ==> after.usage == usage_of(payload)
            &&& usage_of(payload) is None ==> after.usage == standing.usage
        }),
{
    let usage = usage_of(payload);
    let choices = choices_of(payload);
    choices_keep_the_end_due(standing, choices);
    choices_keep_the_end_due(Standing { usage, ..standing }, choices);
    usage_has_no_part_in_choices(standing, usage, choices);
}

proof fn usage_has_no_part_in_choices(
    standing: Standing,
    usage: Option<UsageTokens>,
    choices: Seq<Json>,
)
    ensures
        (Standing { usage, ..standing }).choices(choices) == (
            Standing { usage, ..standing.choices(choices).0 },
            standing.choices(choices).1,
        ),
    decreases choices.len(),
{
    if choices.len() > 0 {
        usage_has_no_part_in_choices(standing, usage, choices.drop_last());
    }
}

/// A line that begins with `data:` has as its data what follows, without the white space around it,
/// unless that is nothing or the end mark. A line that begins otherwise has none.
pub proof fn the_data_of_a_line_follows_its_name(
    before: Seq<char>,
    data: Seq<char>,
    after: Seq<char>,
    line: Seq<char>,
)
    requires
        forall|i: int| 0 <= i < before.len() ==> is_white_space(#[trigger] before[i]),
        forall|i: int| 0 <= i < after.len() ==> is_white_space(#[trigger] after[i]),
        data.len() > 0 ==> !is_white_space(data.first()) && !is_white_space(data.last()),
    ensures
        data.len() > 0 && data != "[DONE]"@ ==> data_of("data:"@ + before + data + after) == Some(
            data,
        ),
        data.len() == 0 || data == "[DONE]"@ ==> data_of("data:"@ + before + data + after) is None,
        !"data:"@.is_prefix_of(line) ==> data_of(line) is None,
{
    reveal_strlit("data:");
    let name = "data:"@;
    assert(name.len() == 5);
    assert(name.last() == ':');
    let whole = name + before + data + after;
    let cut = trim_end_of(whole, '\r');
    trim_end_of_takes_only_the_end(whole, '\r');
    if cut.len() < 5 {
        assert(whole[4] == name[4]);
        assert(whole[4] == '\r');
    }
    assert(name.is_prefix_of(cut)) by {
        assert(name =~= cut.subrange(0, 5));
    }
    let rest = cut.skip(5);
    let last = 5 + before.len() + data.len();
    if data.len() > 0 {
        assert(whole[last - 1] == data.last());
        assert(is_white_space('\r'));
        assert(cut.len() >= last);
        let tail = after.take(cut.len() - last);
        assert(rest =~= before + data + tail);
        trimming_leaves_the_middle(before, data, tail);
    } else {
        let white = before + after;
        let left = white.take(cut.len() - 5);
        let none = Seq::<char>::empty();
        assert(rest =~= left + none + none);
        trimming_leaves_the_middle(left, none, none);
    }
    if !name.is_prefix_of(line) {
        let short = trim_end_of(line, '\r');
        trim_end_of_takes_only_the_end(line, '\r');
        if name.is_prefix_of(short) {
            assert(name =~= line.subrange(0, 5));
        }
    }
}

/// A line tells what the chunk in its data tells. A line without data, or with data that is not
/// JSON, tells nothing and changes nothing.
pub proof fn a_line_tells_what_its_chunk_tells(standing: Standing, line: Seq<char>)
    ensures
        data_of(line) matches Some(data) ==> (parsed_text(data) matches Some(payload)
            ==> standing.line(line) == standing.payload(payload)),
        data_of(line) matches Some(data) ==> (parsed_text(data) is None ==> standing.line(line) == (
            standing,
            Seq::<StreamEvent>::empty(),
        )),
        data_of(line) is None ==> standing.line(line) == (standing, Seq::<StreamEvent>::empty()),
{
}

/// A text is read line by line: a complete line is told first, and then the rest. A text without a
/// line break tells nothing and is kept until its line is complete.
pub proof fn a_text_is_read_line_by_line(
    standing: Standing,
    line: Seq<char>,
    rest: Seq<char>,
)
    requires
        !line.contains('\n'),
    ensures
        standing.lines(line + seq!['\n'] + rest) == (
            standing.line(line).0.lines(rest).0,
            standing.line(line).1 + standing.line(line).0.lines(rest).1,
        ),
        standing.lines(line) == (
            StreamView { rest: line, standing },
            Seq::<StreamEvent>::empty(),
        ),
{
    let text = line + seq!['\n'] + rest;
    let n = line.len() as int;
    assert forall|i: int| 0 <= i < n implies text[i] != '\n' by {
        assert(text[i] == line[i]);
        assert(line.contains(line[i]));
    }
    assert forall|i: int| 0 <= i < n implies line[i] != '\n' by {
        assert(line.contains(line[i]));
    }
    line_end_is_determined(text, n);
    line_end_is_determined(line, n);
    assert(text.take(n) =~= line);
    assert(text.skip(n + 1) =~= rest);
}

/// More text is read after what is kept of the text before.
pub proof fn text_is_read_after_what_is_kept(stream: StreamView, text: Seq<char>)
    ensures
        stream.text(text) == stream.standing.lines(stream.rest + text),
{
}

/// The end of a stream tells at most two things: first the tokens that wait, all of them, if there
/// are any and the stream reported no total; and then the end with the usage that the stream
/// reported last, if the end is due. After it the end is not due, no token waits unless the total is
/// known, and all else is as before.
pub proof fn an_end_tells_what_is_left(standing: Standing)
    requires
        0 <= standing.pending <= u64::MAX,
    ensures
        ({
            let (after, events) = standing.finished();
            let known = standing.usage matches Some(usage) && usage.total_tokens is Some;
            let flushes = !known && standing.pending > 0;
            let flushed = StreamEvent::Progress(standing.pending as u64);
            let ended = StreamEvent::Finish(standing.usage);
            &&& flushes && standing.finish_due ==> events == seq![flushed, ended]
            &&& flushes && !standing.finish_due ==> events == seq![flushed]
            &&& !flushes && standing.finish_due ==> events == seq![ended]
            &&& !flushes && !standing.finish_due ==> events == Seq::<StreamEvent>::empty()
            &&& !after.finish_due
            &&& known ==> after.pending == standing.pending
            &&& !known ==> after.pending == 0
            &&& after.usage == standing.usage
            &&& after.first_token_seen == standing.first_token_seen
        }),
{
}

} // verus!
