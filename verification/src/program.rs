//! One agent program as the router tracks it: its status, its state and the tokens it holds.

use crate::clock::{epoch_ms, reads_clock};
use crate::numbers::capped_sum;
use crate::text::{copy_optional, optional_text};
use std::sync::Arc;
use tokio::sync::Notify;
use vstd::prelude::*;

verus! {

#[verifier::external_type_specification]
#[verifier::external_body]
pub struct ExNotify(Notify);

/// `Notify::new`: some handle on which waiters can be woken.
pub assume_specification[ Notify::new ]() -> Notify;

/// Whether a program waits for a completion or acts on one.
#[derive(Debug, Clone, Copy, PartialEq, Eq, Structural)]
pub enum ProgramStatus {
    Reasoning,
    Acting,
}

/// Whether a program may send requests.
#[derive(Debug, Clone, Copy, PartialEq, Eq, Structural)]
pub enum ProgramState {
    Active,
    Paused,
    Terminated,
}

/// A program and what the router knows of it.
#[derive(Debug)]
pub struct Program {
    pub program_id: String,
    pub status: ProgramStatus,
    pub state: ProgramState,
    pub context_len: usize,
    pub total_tokens: u64,
    pub step_count: u64,
    /// The backend that the program is bound to: set by its first request and kept until the
    /// program is paused, so that its prefix stays cached in one place.
    pub backend_url: Option<String>,
    /// The backend that a paused program was taken from.
    pub origin_backend: Option<String>,
    /// What a request of a paused program waits on.
    pub waiting_notify: Option<Arc<Notify>>,
    pub marked_for_pause: bool,
    pub paused_at_ms: Option<u128>,
    /// Since when the program acts, where that is tracked.
    pub acting_since_ms: Option<u128>,
}

/// The value of a program.
pub struct ProgramView {
    pub program_id: Seq<char>,
    pub status: ProgramStatus,
    pub state: ProgramState,
    pub context_len: usize,
    pub total_tokens: u64,
    pub step_count: u64,
    pub backend_url: Option<Seq<char>>,
    pub origin_backend: Option<Seq<char>>,
    pub waiting_notify: Option<Arc<Notify>>,
    pub marked_for_pause: bool,
    pub paused_at_ms: Option<u128>,
    pub acting_since_ms: Option<u128>,
}

impl View for Program {
    type V = ProgramView;

    open spec fn view(&self) -> ProgramView {
        ProgramView {
            program_id: self.program_id@,
            status: self.status,
            state: self.state,
            context_len: self.context_len,
            total_tokens: self.total_tokens,
            step_count: self.step_count,
            backend_url: optional_text(self.backend_url),
            origin_backend: optional_text(self.origin_backend),
            waiting_notify: self.waiting_notify,
            marked_for_pause: self.marked_for_pause,
            paused_at_ms: self.paused_at_ms,
            acting_since_ms: self.acting_since_ms,
        }
    }
}

impl ProgramView {
    /// A program that has sent nothing yet.
    pub open spec fn fresh(program_id: Seq<char>) -> ProgramView {
        ProgramView {
            program_id,
            status: ProgramStatus::Reasoning,
            state: ProgramState::Active,
            context_len: 0,
            total_tokens: 0,
            step_count: 0,
            backend_url: None,
            origin_backend: None,
            waiting_notify: None,
            marked_for_pause: false,
            paused_at_ms: None,
            acting_since_ms: None,
        }
    }

    /// The program sends a request: it reasons, it is active, and it is bound to `backend_url`
    /// unless it is bound already.
    pub open spec fn requested(self, context_len: usize, backend_url: Seq<char>) -> ProgramView {
        ProgramView {
            step_count: (self.step_count + 1) as u64,
            context_len,
            status: ProgramStatus::Reasoning,
            state: ProgramState::Active,
            backend_url: if self.backend_url is None {
                Some(backend_url)
            } else {
                self.backend_url
            },
            ..self
        }
    }

    /// The program has a request that waits for admission.
    pub open spec fn request_waits(self, context_len: usize) -> ProgramView {
        ProgramView {
            step_count: (self.step_count + 1) as u64,
            context_len,
            status: ProgramStatus::Reasoning,
            ..self
        }
    }

    /// The program is taken off its backend and its requests wait on `notify`.
    pub open spec fn paused(
        self,
        origin_backend: Option<Seq<char>>,
        notify: Arc<Notify>,
        at: Option<u128>,
    ) -> ProgramView {
        ProgramView {
            origin_backend,
            backend_url: None,
            state: ProgramState::Paused,
            paused_at_ms: at,
            waiting_notify: Some(notify),
            ..self
        }
    }

    /// The program goes on, bound to `backend_url`.
    pub open spec fn resumed(self, backend_url: Seq<char>) -> ProgramView {
        ProgramView {
            backend_url: Some(backend_url),
            origin_backend: None,
            state: ProgramState::Active,
            paused_at_ms: None,
            waiting_notify: None,
            ..self
        }
    }

    /// The program got its completion, with the token total where the response gave one.
    pub open spec fn answered(self, total_tokens: Option<u64>) -> ProgramView {
        ProgramView {
            total_tokens: match total_tokens {
                Some(total) => total,
                None => self.total_tokens,
            },
            status: ProgramStatus::Acting,
            ..self
        }
    }

    /// More tokens of the completion came in.
    pub open spec fn streamed(self, delta_tokens: u64) -> ProgramView {
        ProgramView { total_tokens: capped_sum(self.total_tokens, delta_tokens), ..self }
    }
}

impl Clone for Program {
    fn clone(&self) -> (r: Program)
        ensures
            r@ == self@,
    {
        Program {
            program_id: self.program_id.clone(),
            status: self.status,
            state: self.state,
            context_len: self.context_len,
            total_tokens: self.total_tokens,
            step_count: self.step_count,
            backend_url: copy_optional(&self.backend_url),
            origin_backend: copy_optional(&self.origin_backend),
            waiting_notify: match &self.waiting_notify {
                Some(notify) => Some(Arc::clone(notify)),
                None => None,
            },
            marked_for_pause: self.marked_for_pause,
            paused_at_ms: self.paused_at_ms,
            acting_since_ms: self.acting_since_ms,
        }
    }
}

impl Program {
    pub fn new(program_id: &str) -> (r: Program)
        ensures
            r@ == ProgramView::fresh(program_id@),
    {
        Program {
            program_id: program_id.to_owned(),
            status: ProgramStatus::Reasoning,
            state: ProgramState::Active,
            context_len: 0,
            total_tokens: 0,
            step_count: 0,
            backend_url: None,
            origin_backend: None,
            waiting_notify: None,
            marked_for_pause: false,
            paused_at_ms: None,
            acting_since_ms: None,
        }
    }

    /// Notes a request that is sent to a backend.
    pub fn before_request(&mut self, context_len: usize, backend_url: &str)
        requires
            old(self).step_count < u64::MAX,
        ensures
            final(self)@ == old(self)@.requested(context_len, backend_url@),
    {
        self.step_count = self.step_count + 1;
        self.context_len = context_len;
        self.status = ProgramStatus::Reasoning;
        self.state = ProgramState::Active;
        if self.backend_url.is_none() {
            self.backend_url = Some(backend_url.to_owned());
        }
    }

    /// Notes a request that waits for admission.
    pub fn before_waiting_request(&mut self, context_len: usize)
        requires
            old(self).step_count < u64::MAX,
        ensures
            final(self)@ == old(self)@.request_waits(context_len),
    {
        self.step_count = self.step_count + 1;
        self.context_len = context_len;
        self.status = ProgramStatus::Reasoning;
    }

    /// Pauses the program at the given time and hands out the handle that its requests wait on.
    pub fn pause_at(&mut self, origin_backend: Option<String>, at: Option<u128>) -> (notify: Arc<
        Notify,
    >)
        ensures
            final(self)@ == old(self)@.paused(optional_text(origin_backend), notify, at),
    {
        self.origin_backend = origin_backend;
        self.backend_url = None;
        self.state = ProgramState::Paused;
        self.paused_at_ms = at;
        let notify = Arc::new(Notify::new());
        self.waiting_notify = Some(Arc::clone(&notify));
        notify
    }

    /// Pauses the program and hands out the handle that its requests wait on.
    pub fn pause(&mut self, origin_backend: Option<String>) -> (notify: Arc<Notify>)
        ensures
            final(self)@ == old(self)@.paused(
                optional_text(origin_backend),
                notify,
                final(self)@.paused_at_ms,
            ),
            reads_clock(final(self)@.paused_at_ms),
    {
        self.pause_at(origin_backend, epoch_ms())
    }

    /// Binds the program to a backend, makes it active, and hands back the handle that its requests
    /// wait on, if there is one.
    pub fn resume(&mut self, backend_url: &str) -> (notify: Option<Arc<Notify>>)
        ensures
            notify == old(self)@.waiting_notify,
            final(self)@ == old(self)@.resumed(backend_url@),
    {
        self.backend_url = Some(backend_url.to_owned());
        self.origin_backend = None;
        self.state = ProgramState::Active;
        self.paused_at_ms = None;
        self.waiting_notify.take()
    }

    /// Notes that a completion came back.
    pub fn after_request(&mut self, total_tokens: Option<u64>)
        ensures
            final(self)@ == old(self)@.answered(total_tokens),
    {
        if let Some(total) = total_tokens {
            self.total_tokens = total;
        }
        self.status = ProgramStatus::Acting;
    }

    /// Counts tokens of a completion that is still coming in.
    pub fn update_streaming_tokens(&mut self, delta_tokens: u64)
        ensures
            final(self)@ == old(self)@.streamed(delta_tokens),
    {
        self.total_tokens = self.total_tokens.saturating_add(delta_tokens);
    }
}

/// What is shown of a program.
#[derive(Debug)]
pub struct ProgramSnapshot {
    pub context_len: usize,
    pub total_tokens: u64,
    pub step_count: u64,
    pub status: ProgramStatus,
    pub state: ProgramState,
    pub backend_url: Option<String>,
    pub origin_backend: Option<String>,
    pub marked_for_pause: bool,
    pub paused_at_ms: Option<u128>,
}

/// The value of a snapshot.
pub struct SnapshotView {
    pub context_len: usize,
    pub total_tokens: u64,
    pub step_count: u64,
    pub status: ProgramStatus,
    pub state: ProgramState,
    pub backend_url: Option<Seq<char>>,
    pub origin_backend: Option<Seq<char>>,
    pub marked_for_pause: bool,
    pub paused_at_ms: Option<u128>,
}

impl View for ProgramSnapshot {
    type V = SnapshotView;

    open spec fn view(&self) -> SnapshotView {
        SnapshotView {
            context_len: self.context_len,
            total_tokens: self.total_tokens,
            step_count: self.step_count,
            status: self.status,
            state: self.state,
            backend_url: optional_text(self.backend_url),
            origin_backend: optional_text(self.origin_backend),
            marked_for_pause: self.marked_for_pause,
            paused_at_ms: self.paused_at_ms,
        }
    }
}

impl ProgramView {
    /// What is shown of the program.
    pub open spec fn shown(self) -> SnapshotView {
        SnapshotView {
            context_len: self.context_len,
            total_tokens: self.total_tokens,
            step_count: self.step_count,
            status: self.status,
            state: self.state,
            backend_url: self.backend_url,
            origin_backend: self.origin_backend,
            marked_for_pause: self.marked_for_pause,
            paused_at_ms: self.paused_at_ms,
        }
    }
}

impl Clone for ProgramSnapshot {
    fn clone(&self) -> (r: ProgramSnapshot)
        ensures
            r@ == self@,
    {
        ProgramSnapshot {
            context_len: self.context_len,
            total_tokens: self.total_tokens,
            step_count: self.step_count,
            status: self.status,
            state: self.state,
            backend_url: copy_optional(&self.backend_url),
            origin_backend: copy_optional(&self.origin_backend),
            marked_for_pause: self.marked_for_pause,
            paused_at_ms: self.paused_at_ms,
        }
    }
}

impl From<&Program> for ProgramSnapshot {
    fn from(program: &Program) -> (r: ProgramSnapshot) {
        ProgramSnapshot {
            context_len: program.context_len,
            total_tokens: program.total_tokens,
            step_count: program.step_count,
            status: program.status,
            state: program.state,
            backend_url: copy_optional(&program.backend_url),
            origin_backend: copy_optional(&program.origin_backend),
            marked_for_pause: program.marked_for_pause,
            paused_at_ms: program.paused_at_ms,
        }
    }
}

impl vstd::std_specs::convert::FromSpecImpl<&Program> for ProgramSnapshot {
    open spec fn obeys_from_spec() -> bool {
        true
    }

    open spec fn from_spec(program: &Program) -> ProgramSnapshot {
        ProgramSnapshot {
            context_len: program.context_len,
            total_tokens: program.total_tokens,
            step_count: program.step_count,
            status: program.status,
            state: program.state,
            backend_url: program.backend_url,
            origin_backend: program.origin_backend,
            marked_for_pause: program.marked_for_pause,
            paused_at_ms: program.paused_at_ms,
        }
    }
}

/// A bound program stays on its backend through its requests and their answers, whatever backend
/// the router offers.
pub proof fn a_bound_program_stays_bound(
    program: ProgramView,
    context_len: usize,
    offered: Seq<char>,
    delta_tokens: u64,
    total_tokens: Option<u64>,
)
    requires
        program.backend_url is Some,
    ensures
        program.requested(context_len, offered).backend_url == program.backend_url,
        program.request_waits(context_len).backend_url == program.backend_url,
        program.streamed(delta_tokens).backend_url == program.backend_url,
        program.answered(total_tokens).backend_url == program.backend_url,
{
}

/// The first request binds a program, and the second does not move it.
pub proof fn the_first_request_binds(
    program_id: Seq<char>,
    context_len: usize,
    first: Seq<char>,
    total_tokens: Option<u64>,
    next_context_len: usize,
    second: Seq<char>,
)
    ensures
        ProgramView::fresh(program_id).requested(context_len, first).answered(
            total_tokens,
        ).requested(next_context_len, second).backend_url == Some(first),
{
}

/// Pausing and resuming changes only where a program is bound: it ends up active on the given
/// backend, with nothing left of the pause.
pub proof fn resuming_undoes_a_pause(
    program: ProgramView,
    origin_backend: Option<Seq<char>>,
    notify: Arc<Notify>,
    at: Option<u128>,
    backend_url: Seq<char>,
)
    ensures
        program.paused(origin_backend, notify, at).waiting_notify == Some(notify),
        program.paused(origin_backend, notify, at).resumed(backend_url) == program.resumed(
            backend_url,
        ),
        program.state == ProgramState::Active && program.backend_url == Some(backend_url)
            && program.origin_backend is None && program.waiting_notify is None
            && program.paused_at_ms is None ==> program.paused(
            origin_backend,
            notify,
            at,
        ).resumed(backend_url) == program,
{
}

/// A request that waits leaves a paused program paused and unbound.
pub proof fn a_waiting_request_keeps_the_pause(program: ProgramView, context_len: usize)
    ensures
        program.request_waits(context_len).state == program.state,
        program.request_waits(context_len).backend_url == program.backend_url,
        program.request_waits(context_len).origin_backend == program.origin_backend,
        program.request_waits(context_len).waiting_notify == program.waiting_notify,
        program.request_waits(context_len).paused_at_ms == program.paused_at_ms,
{
}

/// The token total that a response reports replaces whatever was counted while it came in.
pub proof fn a_reported_total_wins(program: ProgramView, delta_tokens: u64, total: u64)
    ensures
        program.streamed(delta_tokens).answered(Some(total)) == program.answered(Some(total)),
{
}

/// A program that has sent nothing is active, holds no tokens and is bound nowhere.
pub proof fn a_fresh_program_holds_nothing(program_id: Seq<char>)
    ensures
        ({
            let fresh = ProgramView::fresh(program_id);
            &&& fresh.program_id == program_id
            &&& fresh.status == ProgramStatus::Reasoning && fresh.state == ProgramState::Active
            &&& fresh.context_len == 0 && fresh.total_tokens == 0 && fresh.step_count == 0
            &&& fresh.backend_url is None && fresh.origin_backend is None
            &&& fresh.waiting_notify is None && !fresh.marked_for_pause
            &&& fresh.paused_at_ms is None && fresh.acting_since_ms is None
        }),
{
}

/// After a request a program is bound to some backend: one that was bound to none, whatever its step
/// count and however it came to be bound to none, to exactly the backend that was offered, and any
/// other to the one it had.
pub proof fn a_request_leaves_a_program_bound(
    program: ProgramView,
    context_len: usize,
    offered: Seq<char>,
)
    ensures
        program.requested(context_len, offered).backend_url is Some,
        program.backend_url is None ==> program.requested(context_len, offered).backend_url
            == Some(offered),
        program.backend_url is Some ==> program.requested(context_len, offered).backend_url
            == program.backend_url,
{
}

/// A program that was paused is bound, by its next request, to the backend offered then.
pub proof fn a_request_after_a_pause_binds_anew(
    program: ProgramView,
    origin_backend: Option<Seq<char>>,
    notify: Arc<Notify>,
    at: Option<u128>,
    waiting_len: usize,
    context_len: usize,
    offered: Seq<char>,
)
    ensures
        ({
            let paused = program.paused(origin_backend, notify, at);
            let sent = paused.requested(context_len, offered);
            let waited = paused.request_waits(waiting_len).requested(context_len, offered);
            &&& sent.backend_url == Some(offered) && sent.state == ProgramState::Active
            &&& waited.backend_url == Some(offered) && waited.state == ProgramState::Active
        }),
{
}

/// A request adds one step, takes its own length for the program's, and makes the program reason;
/// one that is sent makes it active. Tokens and the traces of a pause stay.
pub proof fn a_request_is_one_step(program: ProgramView, context_len: usize, offered: Seq<char>)
    requires
        program.step_count < u64::MAX,
    ensures
        ({
            let sent = program.requested(context_len, offered);
            &&& sent.step_count == program.step_count + 1
            &&& sent.context_len == context_len
            &&& sent.status == ProgramStatus::Reasoning
            &&& sent.state == ProgramState::Active
            &&& sent.program_id == program.program_id
            &&& sent.total_tokens == program.total_tokens
            &&& sent.origin_backend == program.origin_backend
            &&& sent.waiting_notify == program.waiting_notify
            &&& sent.marked_for_pause == program.marked_for_pause
            &&& sent.paused_at_ms == program.paused_at_ms
            &&& sent.acting_since_ms == program.acting_since_ms
        }),
        ({
            let waits = program.request_waits(context_len);
            &&& waits.step_count == program.step_count + 1
            &&& waits.context_len == context_len
            &&& waits.status == ProgramStatus::Reasoning
            &&& waits.program_id == program.program_id
            &&& waits.total_tokens == program.total_tokens
            &&& waits.marked_for_pause == program.marked_for_pause
            &&& waits.acting_since_ms == program.acting_since_ms
        }),
{
}

/// A pause takes a program off its backend and notes where it came from, when, and what its requests
/// wait on. What the program is doing, and what it holds, stays.
pub proof fn a_pause_keeps_the_program(
    program: ProgramView,
    origin_backend: Option<Seq<char>>,
    notify: Arc<Notify>,
    at: Option<u128>,
)
    ensures
        ({
            let paused = program.paused(origin_backend, notify, at);
            &&& paused.state == ProgramState::Paused
            &&& paused.backend_url is None
            &&& paused.origin_backend == origin_backend
            &&& paused.waiting_notify == Some(notify)
            &&& paused.paused_at_ms == at
            &&& paused.program_id == program.program_id
            &&& paused.status == program.status
            &&& paused.context_len == program.context_len
            &&& paused.total_tokens == program.total_tokens
            &&& paused.step_count == program.step_count
            &&& paused.marked_for_pause == program.marked_for_pause
            &&& paused.acting_since_ms == program.acting_since_ms
        }),
{
}

/// Resuming makes a program active on exactly the given backend, with nothing left of a pause. What
/// the program is doing, and what it holds, stays.
pub proof fn resuming_keeps_the_program(program: ProgramView, backend_url: Seq<char>)
    ensures
        ({
            let resumed = program.resumed(backend_url);
            &&& resumed.state == ProgramState::Active
            &&& resumed.backend_url == Some(backend_url)
            &&& resumed.origin_backend is None
            &&& resumed.waiting_notify is None
            &&& resumed.paused_at_ms is None
            &&& resumed.program_id == program.program_id
            &&& resumed.status == program.status
            &&& resumed.context_len == program.context_len
            &&& resumed.total_tokens == program.total_tokens
            &&& resumed.step_count == program.step_count
            &&& resumed.marked_for_pause == program.marked_for_pause
            &&& resumed.acting_since_ms == program.acting_since_ms
        }),
{
}

/// After its answer a program acts and holds exactly the total that the answer gave, or what it held
/// before where the answer gave none. Nothing else changes.
pub proof fn an_answer_sets_the_total(program: ProgramView, total_tokens: Option<u64>)
    ensures
        ({
            let answered = program.answered(total_tokens);
            &&& answered.status == ProgramStatus::Acting
            &&& total_tokens is Some ==> total_tokens == Some(answered.total_tokens)
            &&& total_tokens is None ==> answered.total_tokens == program.total_tokens
            &&& answered == (ProgramView {
                status: answered.status,
                total_tokens: answered.total_tokens,
                ..program
            })
        }),
{
}

/// Tokens that come in are added to what a program holds, up to the largest count there is, and
/// change nothing else.
pub proof fn streamed_tokens_are_added(program: ProgramView, delta_tokens: u64)
    ensures
        ({
            let streamed = program.streamed(delta_tokens);
            &&& program.total_tokens + delta_tokens <= u64::MAX ==> streamed.total_tokens
                == program.total_tokens + delta_tokens
            &&& program.total_tokens + delta_tokens > u64::MAX ==> streamed.total_tokens
                == u64::MAX
            &&& streamed == (ProgramView { total_tokens: streamed.total_tokens, ..program })
        }),
{
}

/// What is shown of a program is what it is.
pub proof fn a_program_is_shown_as_it_is(program: ProgramView)
    ensures
        program.shown().context_len == program.context_len,
        program.shown().total_tokens == program.total_tokens,
        program.shown().step_count == program.step_count,
        program.shown().status == program.status,
        program.shown().state == program.state,
        program.shown().backend_url == program.backend_url,
        program.shown().origin_backend == program.origin_backend,
        program.shown().marked_for_pause == program.marked_for_pause,
        program.shown().paused_at_ms == program.paused_at_ms,
{
}

/// The value of a program is made of its fields.
pub proof fn a_program_is_its_fields(program: Program)
    ensures
        program@.program_id == program.program_id@,
        program@.status == program.status,
        program@.state == program.state,
        program@.context_len == program.context_len,
        program@.total_tokens == program.total_tokens,
        program@.step_count == program.step_count,
        program.backend_url matches Some(url) ==> program@.backend_url == Some(url@),
        program.backend_url is None ==> program@.backend_url is None,
        program.origin_backend matches Some(url) ==> program@.origin_backend == Some(url@),
        program.origin_backend is None ==> program@.origin_backend is None,
        program@.waiting_notify == program.waiting_notify,
        program@.marked_for_pause == program.marked_for_pause,
        program@.paused_at_ms == program.paused_at_ms,
        program@.acting_since_ms == program.acting_since_ms,
{
}

/// The value of a snapshot is made of its fields.
pub proof fn a_snapshot_is_its_fields(snapshot: ProgramSnapshot)
    ensures
        snapshot@.context_len == snapshot.context_len,
        snapshot@.total_tokens == snapshot.total_tokens,
        snapshot@.step_count == snapshot.step_count,
        snapshot@.status == snapshot.status,
        snapshot@.state == snapshot.state,
        snapshot.backend_url matches Some(url) ==> snapshot@.backend_url == Some(url@),
        snapshot.backend_url is None ==> snapshot@.backend_url is None,
        snapshot.origin_backend matches Some(url) ==> snapshot@.origin_backend == Some(url@),
        snapshot.origin_backend is None ==> snapshot@.origin_backend is None,
        snapshot@.marked_for_pause == snapshot.marked_for_pause,
        snapshot@.paused_at_ms == snapshot.paused_at_ms,
{
}

} // verus!
