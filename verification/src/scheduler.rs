//! Resuming paused programs as room comes free.

use crate::backend::{BackendState, BackendView, BUFFER_PER_PROGRAM};
use crate::metrics::{reported_cache, MetricsClient, ServerInfoReply};
use crate::numbers::{as_signed, capped_sum, signed};
use crate::order::{
    distinct_by, filtering_keeps_keys_distinct, in_order, sort_stable, sorting_keeps_each_item,
    sorting_keeps_keys_distinct, sorting_keeps_the_items, sorting_keeps_the_number, sorting_sorts,
    stable_sorted,
};
use crate::program::{Program, ProgramState, ProgramStatus, ProgramView};
use crate::registry::{lists, ProgramRegistry};
use crate::wake::{notify, woken_handle, woken_handles, Woken};
use std::sync::Arc;
use std::time::Duration;
use tokio::sync::Notify;
use vstd::prelude::*;

verus! {

/// A paused program that may be resumed.
#[derive(Debug)]
pub struct ResumeCandidate {
    pub program_id: String,
    pub total_tokens: u64,
    pub priority: u8,
}

/// The room that a program with so many tokens needs: its tokens and its buffer, as a 64-bit pattern
/// read as a signed integer.
pub open spec fn room_for(total_tokens: u64) -> int {
    as_signed(capped_sum(total_tokens, BUFFER_PER_PROGRAM))
}

/// The rank in which a paused program is considered: first those in the middle of a reasoning step,
/// then new ones, then acting ones.
pub open spec fn priority_of(program: ProgramView) -> u8 {
    if program.step_count == 1 {
        1
    } else if program.status == ProgramStatus::Reasoning {
        0
    } else {
        2
    }
}

/// The value of a candidate.
pub struct CandidateView {
    pub program_id: Seq<char>,
    pub total_tokens: u64,
    pub priority: u8,
}

impl View for ResumeCandidate {
    type V = CandidateView;

    open spec fn view(&self) -> CandidateView {
        CandidateView {
            program_id: self.program_id@,
            total_tokens: self.total_tokens,
            priority: self.priority,
        }
    }
}

/// The candidates that a walk over the programs comes by, in its order.
pub open spec fn candidates_of(entries: Seq<(String, Program)>) -> Seq<CandidateView>
    decreases entries.len(),
{
    if entries.len() == 0 {
        Seq::empty()
    } else {
        let (id, program) = entries.last();
        let before = candidates_of(entries.drop_last());
        if program@.state == ProgramState::Paused {
            before.push(
                CandidateView {
                    program_id: id@,
                    total_tokens: program@.total_tokens,
                    priority: priority_of(program@),
                },
            )
        } else {
            before
        }
    }
}

/// By rank, and by tokens within a rank.
pub open spec fn ranked_before() -> spec_fn(CandidateView, CandidateView) -> bool {
    |a: CandidateView, b: CandidateView|
        a.priority < b.priority || (a.priority == b.priority && a.total_tokens < b.total_tokens)
}

/// The largest first.
pub open spec fn larger_before() -> spec_fn(CandidateView, CandidateView) -> bool {
    |a: CandidateView, b: CandidateView| a.total_tokens > b.total_tokens
}

/// The one with the least room first.
pub open spec fn tighter_before() -> spec_fn((int, int), (int, int)) -> bool {
    |a: (int, int), b: (int, int)| a.1 < b.1
}

/// All room together.
pub open spec fn total_room(rooms: Seq<(int, int)>) -> int
    decreases rooms.len(),
{
    if rooms.len() == 0 {
        0
    } else {
        total_room(rooms.drop_last()) + rooms.last().1
    }
}

/// The candidates that fit `room` when each, in order, is taken if it still fits, with the room that
/// they need together.
pub open spec fn admitted(candidates: Seq<CandidateView>, room: int) -> (Seq<CandidateView>, int)
    decreases candidates.len(),
{
    if candidates.len() == 0 {
        (Seq::empty(), 0)
    } else {
        let (taken, sum) = admitted(candidates.drop_last(), room);
        let next = candidates.last();
        if sum + room_for(next.total_tokens) <= room {
            (taken.push(next), sum + room_for(next.total_tokens))
        } else {
            (taken, sum)
        }
    }
}

/// The first backend with so much room; the number of backends if there is none.
pub open spec fn first_fit(rooms: Seq<(int, int)>, needed: int) -> int
    decreases rooms.len(),
{
    if rooms.len() == 0 || rooms.first().1 >= needed {
        0
    } else {
        1 + first_fit(rooms.drop_first(), needed)
    }
}

/// The room that is left once `needed` is taken from backend `i`: backends without room for a buffer
/// drop out, and those with the least room come first.
pub open spec fn rooms_after(rooms: Seq<(int, int)>, i: int, needed: int) -> Seq<(int, int)> {
    stable_sorted(
        rooms.update(i, (rooms[i].0, rooms[i].1 - needed)).filter(has_room()),
        tighter_before(),
    )
}

/// Whether a backend has room for a buffer.
pub open spec fn has_room() -> spec_fn((int, int)) -> bool {
    |room: (int, int)| room.1 >= BUFFER_PER_PROGRAM
}

/// Whether a program can be resumed.
pub open spec fn resumable(programs: Map<Seq<char>, ProgramView>, id: Seq<char>) -> bool {
    programs.contains_key(id) && programs[id].state == ProgramState::Paused
}

/// The programs once the one under `id` is resumed, if it can be.
pub open spec fn with_resumed(
    programs: Map<Seq<char>, ProgramView>,
    id: Seq<char>,
    url: Seq<char>,
) -> Map<Seq<char>, ProgramView> {
    if resumable(programs, id) {
        programs.insert(id, programs[id].resumed(url))
    } else {
        programs
    }
}

/// The programs and the rooms once each candidate, in order, is resumed on the first backend that
/// has room for it, if there is one.
pub open spec fn placed(
    programs: Map<Seq<char>, ProgramView>,
    rooms: Seq<(int, int)>,
    candidates: Seq<CandidateView>,
    urls: Seq<Seq<char>>,
) -> (Map<Seq<char>, ProgramView>, Seq<(int, int)>)
    decreases candidates.len(),
{
    if candidates.len() == 0 {
        (programs, rooms)
    } else {
        let (before, left) = placed(programs, rooms, candidates.drop_last(), urls);
        let next = candidates.last();
        let needed = room_for(next.total_tokens);
        let i = first_fit(left, needed);
        if 0 <= i < left.len() && resumable(before, next.program_id) {
            (
                with_resumed(before, next.program_id, urls[left[i].0]),
                rooms_after(left, i, needed),
            )
        } else {
            (before, left)
        }
    }
}

/// The programs once the candidates are resumed as far as the rooms allow. The candidates that fit
/// all room together are chosen by rank, smaller before larger; of those the largest are placed
/// first, each on the backend that it fits best: of those with room for it, the one with the least.
pub open spec fn resumption(
    programs: Map<Seq<char>, ProgramView>,
    rooms: Seq<(int, int)>,
    candidates: Seq<CandidateView>,
    urls: Seq<Seq<char>>,
) -> Map<Seq<char>, ProgramView> {
    let room = total_room(rooms);
    if room <= 0 {
        programs
    } else {
        let chosen = admitted(stable_sorted(candidates, ranked_before()), room).0;
        placed(
            programs,
            stable_sorted(rooms, tighter_before()),
            stable_sorted(chosen, larger_before()),
            urls,
        ).0
    }
}

/// The room of a backend by its number.
pub open spec fn room_value() -> spec_fn((usize, i128)) -> (int, int) {
    |room: (usize, i128)| (room.0 as int, room.1 as int)
}

/// Rooms by the numbers of their backends.
pub open spec fn rooms_view(rooms: Seq<(usize, i64)>) -> Seq<(int, int)> {
    rooms.map_values(|room: (usize, i64)| (room.0 as int, room.1 as int))
}

/// The values of candidates.
pub open spec fn candidates_view(candidates: Seq<ResumeCandidate>) -> Seq<CandidateView> {
    candidates.map_values(|candidate: ResumeCandidate| candidate@)
}

impl ResumeCandidate {
    /// The room that the program needs.
    pub fn required_tokens(&self) -> (r: i64)
        ensures
            r == room_for(self.total_tokens),
    {
        signed(self.total_tokens.saturating_add(BUFFER_PER_PROGRAM))
    }
}

/// The scheduler that resumes paused programs on the backends.
#[derive(Debug)]
pub struct SchedulerState<M> {
    backends: Vec<BackendState<M>>,
    interval: Duration,
}

/// The value of a scheduler.
pub struct SchedulerView {
    pub backends: Seq<BackendView>,
    pub interval: Duration,
}

impl SchedulerView {
    /// The addresses of the backends.
    pub open spec fn urls(self) -> Seq<Seq<char>> {
        self.backends.map_values(|backend: BackendView| backend.url)
    }

    /// The backends that are healthy and have room for a buffer, with that room, among the first
    /// `n`. The programs on backend `i` use `used[i]` tokens.
    pub open spec fn rooms(
        self,
        programs: Map<Seq<char>, ProgramView>,
        used: Seq<u64>,
        n: int,
    ) -> Seq<(int, int)>
        decreases n,
    {
        if n <= 0 {
            Seq::empty()
        } else {
            let before = self.rooms(programs, used, n - 1);
            let backend = self.backends[n - 1];
            match backend.remaining(programs, used[n - 1]) {
                Some(room) => if backend.metrics.healthy && room >= BUFFER_PER_PROGRAM {
                    before.push((n - 1, room as int))
                } else {
                    before
                },
                None => before,
            }
        }
    }

    /// Whether the room on every healthy backend can be worked out within 64 bits.
    pub open spec fn rooms_fit(
        self,
        programs: Map<Seq<char>, ProgramView>,
        used: Seq<u64>,
    ) -> bool {
        forall|i: int|
            0 <= i < self.backends.len() && (#[trigger] self.backends[i]).metrics.healthy
                ==> self.backends[i].remaining_fits(programs, used[i])
    }
}

impl SchedulerView {
    /// `after` is what the paused programs in `programs` become when those that `entries` comes by
    /// are considered.
    pub open spec fn resumed_in_order(
        self,
        programs: Map<Seq<char>, ProgramView>,
        used: Seq<u64>,
        entries: Seq<(String, Program)>,
        after: Map<Seq<char>, ProgramView>,
    ) -> bool {
        &&& lists(entries, programs)
        &&& after == resumption(
            programs,
            self.rooms(programs, used, self.backends.len() as int),
            candidates_of(entries),
            self.urls(),
        )
    }

    /// `after` is what `programs` become when the paused ones are resumed as far as the room allows,
    /// in the order of some walk.
    pub open spec fn greedily_resumed(
        self,
        programs: Map<Seq<char>, ProgramView>,
        used: Seq<u64>,
        after: Map<Seq<char>, ProgramView>,
    ) -> bool {
        exists|entries: Seq<(String, Program)>| #[trigger]
            self.resumed_in_order(programs, used, entries, after)
    }
}

impl SchedulerView {
    /// `after` is what `programs` become when the paused ones are resumed as far as the room allows,
    /// in the order of some walk, and `handles` are those that the requests of the resumed programs
    /// wait on.
    pub open spec fn greedily_released(
        self,
        programs: Map<Seq<char>, ProgramView>,
        used: Seq<u64>,
        after: Map<Seq<char>, ProgramView>,
        handles: Seq<Arc<Notify>>,
    ) -> bool {
        exists|entries: Seq<(String, Program)>|
            #[trigger] self.resumed_in_order(programs, used, entries, after) && handles
                == handles_of(
                programs,
                resumption_placements(
                    programs,
                    self.rooms(programs, used, self.backends.len() as int),
                    candidates_of(entries),
                    self.urls(),
                ),
            )
    }
}

/// The candidates among the programs that a walk comes by.
pub fn candidates_among(entries: &Vec<(String, Program)>) -> (r: Vec<ResumeCandidate>)
    ensures
        candidates_view(r@) == candidates_of(entries@),
{
    let mut candidates: Vec<ResumeCandidate> = Vec::new();
    let mut n: usize = 0;
    proof {
        assert(candidates_view(candidates@) =~= candidates_of(entries@.take(0)));
    }
    while n < entries.len()
        invariant
            n <= entries@.len(),
            candidates_view(candidates@) == candidates_of(entries@.take(n as int)),
        decreases entries@.len() - n,
    {
        let program = &entries[n].1;
        let ghost before = candidates@;
        proof {
            assert(entries@.take(n + 1).drop_last() == entries@.take(n as int));
        }
        if program.state == ProgramState::Paused {
            let priority: u8 = if program.step_count == 1 {
                1
            } else if program.status == ProgramStatus::Reasoning {
                0
            } else {
                2
            };
            let candidate = ResumeCandidate {
                program_id: entries[n].0.clone(),
                total_tokens: program.total_tokens,
                priority,
            };
            proof {
                assert(candidates_view(before.push(candidate)) =~= candidates_view(before).push(
                    candidate@,
                ));
            }
            candidates.push(candidate);
        }
        n = n + 1;
    }
    proof {
        assert(entries@.take(entries@.len() as int) == entries@);
    }
    candidates
}

fn add_rooms(rooms: &Vec<(usize, i64)>) -> (sum: i128)
    ensures
        sum == total_room(rooms_view(rooms@)),
{
    let mut sum: i128 = 0;
    let mut n: usize = 0;
    proof {
        assert(rooms_view(rooms@).take(0) =~= Seq::empty());
    }
    while n < rooms.len()
        invariant
            n <= rooms@.len(),
            sum == total_room(rooms_view(rooms@).take(n as int)),
            -0x8000_0000_0000_0000 * n <= sum <= 0x7fff_ffff_ffff_ffff * n,
        decreases rooms@.len() - n,
    {
        proof {
            let view = rooms_view(rooms@);
            assert(view.take(n + 1).drop_last() == view.take(n as int));
            assert(view.take(n + 1).last().1 == rooms@[n as int].1);
        }
        sum = sum + rooms[n].1 as i128;
        n = n + 1;
    }
    proof {
        assert(rooms_view(rooms@).take(rooms@.len() as int) == rooms_view(rooms@));
    }
    sum
}

fn widened(rooms: &Vec<(usize, i64)>) -> (r: Vec<(usize, i128)>)
    ensures
        r@.map_values(room_value()) == rooms_view(rooms@),
        r@.len() == rooms@.len(),
        forall|i: int|
            0 <= i < r@.len() ==> (#[trigger] r@[i]).0 == rooms@[i].0 && r@[i].1 == rooms@[i].1,
{
    let mut r: Vec<(usize, i128)> = Vec::new();
    let mut n: usize = 0;
    while n < rooms.len()
        invariant
            n <= rooms@.len(),
            r@.len() == n,
            forall|i: int|
                0 <= i < n ==> (#[trigger] r@[i]).0 == rooms@[i].0 && r@[i].1 == rooms@[i].1,
        decreases rooms@.len() - n,
    {
        r.push((rooms[n].0, rooms[n].1 as i128));
        n = n + 1;
    }
    proof {
        assert(r@.map_values(room_value()) =~= rooms_view(rooms@));
    }
    r
}

fn ranks_before(a: &ResumeCandidate, b: &ResumeCandidate) -> (r: bool)
    ensures
        r == ranked_before()(a@, b@),
{
    a.priority < b.priority || (a.priority == b.priority && a.total_tokens < b.total_tokens)
}

fn is_larger(a: &ResumeCandidate, b: &ResumeCandidate) -> (r: bool)
    ensures
        r == larger_before()(a@, b@),
{
    a.total_tokens > b.total_tokens
}

fn is_tighter(a: &(usize, i128), b: &(usize, i128)) -> (r: bool)
    ensures
        r == tighter_before()(room_value()(*a), room_value()(*b)),
{
    a.1 < b.1
}

fn sort_rooms(rooms: Vec<(usize, i128)>) -> (r: Vec<(usize, i128)>)
    ensures
        r@.map_values(room_value()) == stable_sorted(
            rooms@.map_values(room_value()),
            tighter_before(),
        ),
        r@.to_multiset() == rooms@.to_multiset(),
{
    sort_stable::<(usize, i128), (int, int), _>(
        rooms,
        is_tighter,
        Ghost(room_value()),
        Ghost(tighter_before()),
    )
}

fn find_room(rooms: &Vec<(usize, i128)>, needed: i128) -> (r: usize)
    ensures
        r == first_fit(rooms@.map_values(room_value()), needed as int),
        r <= rooms@.len(),
        r < rooms@.len() ==> rooms@[r as int].1 >= needed,
{
    let ghost view = rooms@.map_values(room_value());
    let mut i: usize = 0;
    proof {
        assert(view.skip(0) == view);
    }
    while i < rooms.len() && rooms[i].1 < needed
        invariant
            i <= rooms@.len(),
            view == rooms@.map_values(room_value()),
            first_fit(view, needed as int) == i + first_fit(view.skip(i as int), needed as int),
        decreases rooms@.len() - i,
    {
        proof {
            assert(view.skip(i as int).drop_first() == view.skip(i + 1));
        }
        i = i + 1;
    }
    i
}

/// Takes room from a backend.
fn take_room(rooms: Vec<(usize, i128)>, i: usize, needed: i128) -> (r: Vec<(usize, i128)>)
    requires
        i < rooms@.len(),
        i128::MIN <= rooms@[i as int].1 - needed <= i128::MAX,
    ensures
        r@.map_values(room_value()) == rooms_after(
            rooms@.map_values(room_value()),
            i as int,
            needed as int,
        ),
        forall|j: int|
            0 <= j < r@.len() ==> (exists|k: int|
                0 <= k < rooms@.len() && (#[trigger] r@[j]).0 == (#[trigger] rooms@[k]).0 && r@[j].1
                    == if k == i {
                    rooms@[k].1 - needed
                } else {
                    rooms@[k].1 as int
                }),
{
    let mut kept: Vec<(usize, i128)> = Vec::new();
    let ghost updated = rooms@.map_values(room_value()).update(
        i as int,
        (rooms@[i as int].0 as int, rooms@[i as int].1 - needed),
    );
    let mut n: usize = 0;
    proof {
        reveal(Seq::filter);
        assert(updated.take(0) =~= Seq::empty());
        assert(kept@.map_values(room_value()) =~= Seq::empty());
    }
    while n < rooms.len()
        invariant
            i < rooms@.len(),
            n <= rooms@.len(),
            i128::MIN <= rooms@[i as int].1 - needed <= i128::MAX,
            updated == rooms@.map_values(room_value()).update(
                i as int,
                (rooms@[i as int].0 as int, rooms@[i as int].1 - needed),
            ),
            kept@.map_values(room_value()) == updated.take(n as int).filter(has_room()),
            forall|j: int|
                0 <= j < kept@.len() ==> (exists|k: int|
                    0 <= k < rooms@.len() && (#[trigger] kept@[j]).0 == (#[trigger] rooms@[k]).0
                        && kept@[j].1 == if k == i {
                        rooms@[k].1 - needed
                    } else {
                        rooms@[k].1 as int
                    }),
        decreases rooms@.len() - n,
    {
        let room: i128 = if n == i {
            rooms[n].1 - needed
        } else {
            rooms[n].1
        };
        let ghost before = kept@;
        proof {
            let next = (rooms@[n as int].0 as int, room as int);
            assert(updated[n as int] == next);
            assert(updated.take(n + 1) == updated.take(n as int).push(next));
            updated.take(n as int).lemma_filter_push(next, has_room());
            assert(before.push((rooms@[n as int].0, room)).map_values(room_value())
                =~= before.map_values(room_value()).push(next));
        }
        if room >= BUFFER_PER_PROGRAM as i128 {
            kept.push((rooms[n].0, room));
        }
        n = n + 1;
    }
    proof {
        assert(updated.take(updated.len() as int) == updated);
    }
    let sorted = sort_rooms(kept);
    proof {
        assert forall|j: int| 0 <= j < sorted@.len() implies (exists|k: int|
            0 <= k < rooms@.len() && (#[trigger] sorted@[j]).0 == (#[trigger] rooms@[k]).0
                && sorted@[j].1 == if k == i {
                rooms@[k].1 - needed
            } else {
                rooms@[k].1 as int
            }) by {
            broadcast use vstd::seq_lib::group_to_multiset_ensures;

            assert(sorted@.contains(sorted@[j]));
            assert(kept@.to_multiset().count(sorted@[j]) > 0);
            assert(kept@.contains(sorted@[j]));
        }
    }
    sorted
}

fn pick_fitting(candidates: Vec<ResumeCandidate>, room: i128) -> (r: Vec<ResumeCandidate>)
    ensures
        candidates_view(r@) == admitted(candidates_view(candidates@), room as int).0,
{
    let len: usize = candidates.len();
    let ghost all = candidates@;
    let ghost values = candidates_view(all);
    let mut taken: Vec<ResumeCandidate> = Vec::new();
    let mut sum: i128 = 0;
    proof {
        assert(values.take(0) =~= Seq::empty());
        assert(candidates_view(taken@) =~= Seq::empty());
    }
    for candidate in it: candidates
        invariant
            it.seq() == all,
            values == candidates_view(all),
            (candidates_view(taken@), sum as int) == admitted(
                values.take(it.index() as int),
                room as int,
            ),
            all.len() == len,
            -0x8000_0000_0000_0000 * it.index() <= sum <= 0x7fff_ffff_ffff_ffff * it.index(),
    {
        let ghost done = it.index() as int;
        let ghost before = taken@;
        proof {
            assert(values.take(done + 1).drop_last() == values.take(done));
            assert(values.take(done + 1).last() == candidate@);
            assert(candidates_view(before.push(candidate)) =~= candidates_view(before).push(
                candidate@,
            ));
        }
        let needed: i128 = candidate.required_tokens() as i128;
        if sum + needed <= room {
            sum = sum + needed;
            taken.push(candidate);
        }
    }
    proof {
        assert(values.take(values.len() as int) == values);
    }
    taken
}

impl<M: MetricsClient> SchedulerState<M> {
    pub closed spec fn view(&self) -> SchedulerView {
        SchedulerView {
            backends: self.backends@.map_values(|backend: BackendState<M>| backend@),
            interval: self.interval,
        }
    }

    pub fn new(backends: Vec<BackendState<M>>, interval: Duration) -> (r: SchedulerState<M>)
        ensures
            r@ == (SchedulerView {
                backends: backends@.map_values(|backend: BackendState<M>| backend@),
                interval,
            }),
    {
        SchedulerState { backends, interval }
    }

    /// How long to wait from one resumption to the next.
    pub fn interval(&self) -> (r: Duration)
        ensures
            r == self@.interval,
    {
        self.interval
    }

    /// The backends.
    pub fn backends(&self) -> (r: &[BackendState<M>])
        ensures
            r@.map_values(|backend: BackendState<M>| backend@) == self@.backends,
    {
        self.backends.as_slice()
    }

    /// Takes in what came of asking the backend with the given number for its cache, and tells
    /// whether it reported one; nothing where there is no such backend.
    pub fn fetch_cache_config(&mut self, i: usize, reply: ServerInfoReply) -> (r: Option<bool>)
        ensures
            r == if i < old(self)@.backends.len() {
                Some(reported_cache(reply) is Some)
            } else {
                None
            },
            final(self)@ == if i < old(self)@.backends.len() {
                let backend = old(self)@.backends[i as int];
                SchedulerView {
                    backends: old(self)@.backends.update(
                        i as int,
                        BackendView { metrics: backend.metrics.fetched(reply), ..backend },
                    ),
                    ..old(self)@
                }
            } else {
                old(self)@
            },
    {
        if i >= self.backends.len() {
            return None;
        }
        let ghost before = self@;
        assert(before.backends[i as int] == self.backends@[i as int]@);
        let reported = self.backends[i].metrics_mut().fetch_cache_config(reply);
        proof {
            let backend = before.backends[i as int];
            assert(self@.backends =~= before.backends.update(
                i as int,
                BackendView { metrics: backend.metrics.fetched(reply), ..backend },
            ));
        }
        Some(reported)
    }

    /// The backends that are healthy and have room for a buffer, with that room.
    fn backend_capacities(&self, programs: &ProgramRegistry, used: &Vec<u64>) -> (r: Vec<
        (usize, i64),
    >)
        requires
            used@.len() == self@.backends.len(),
            self@.rooms_fit(programs@, used@),
        ensures
            rooms_view(r@) == self@.rooms(programs@, used@, self@.backends.len() as int),
            forall|i: int| 0 <= i < r@.len() ==> (#[trigger] r@[i]).0 < self@.backends.len(),
    {
        let mut rooms: Vec<(usize, i64)> = Vec::new();
        let mut n: usize = 0;
        proof {
            assert(rooms_view(rooms@) =~= Seq::empty());
        }
        while n < self.backends.len()
            invariant
                n <= self@.backends.len(),
                used@.len() == self@.backends.len(),
                self@.rooms_fit(programs@, used@),
                rooms_view(rooms@) == self@.rooms(programs@, used@, n as int),
                forall|i: int|
                    0 <= i < rooms@.len() ==> (#[trigger] rooms@[i]).0 < self@.backends.len(),
            decreases self@.backends.len() - n,
        {
            let backend = &self.backends[n];
            let ghost before = rooms@;
            assert(self@.backends[n as int] == backend@);
            if backend.healthy() {
                if let Some(room) = backend.remaining_capacity_with_decay(programs, used[n]) {
                    if room >= BUFFER_PER_PROGRAM as i64 {
                        proof {
                            assert(rooms_view(before.push((n, room))) =~= rooms_view(before).push(
                                (n as int, room as int),
                            ));
                        }
                        rooms.push((n, room));
                    }
                }
            }
            n = n + 1;
        }
        rooms
    }

    /// The paused programs, in the order of some walk over all programs.
    fn paused_candidates(&self, programs: &ProgramRegistry) -> (r: Vec<ResumeCandidate>)
        ensures
            exists|entries: Seq<(String, Program)>|
                lists(entries, programs@) && candidates_view(r@) == #[trigger] candidates_of(
                    entries,
                ),
    {
        let entries = programs.entries();
        candidates_among(&entries)
    }

    /// Takes a paused program out of its pause and hands back the handle that its requests wait on;
    /// `None` for a program that is not there or not paused.
    pub fn release_program(
        &self,
        programs: &mut ProgramRegistry,
        program_id: &str,
        backend_url: &str,
    ) -> (r: Option<Option<Arc<Notify>>>)
        ensures
            r == if resumable(old(programs)@, program_id@) {
                Some(old(programs)@[program_id@].waiting_notify)
            } else {
                None
            },
            final(programs)@ == with_resumed(old(programs)@, program_id@, backend_url@),
    {
        let mut program = Program::new(program_id);
        if !programs.exchange(program_id, &mut program) {
            return None;
        }
        let paused = program.state == ProgramState::Paused;
        let mut notify: Option<Arc<Notify>> = None;
        if paused {
            notify = program.resume(backend_url);
        }
        programs.exchange(program_id, &mut program);
        proof {
            let before = old(programs)@;
            if paused {
                assert(programs@ =~= with_resumed(before, program_id@, backend_url@));
            } else {
                assert(programs@ =~= before);
            }
        }
        if paused {
            Some(notify)
        } else {
            None
        }
    }

    /// Resumes a paused program on a backend and wakes the requests that wait for it; tells whether
    /// there was one, with the receipt for its handle if it has one.
    pub fn resume_program(
        &self,
        programs: &mut ProgramRegistry,
        program_id: &str,
        backend_url: &str,
    ) -> (r: (bool, Option<Woken>))
        ensures
            r.0 == resumable(old(programs)@, program_id@),
            woken_handle(r.1) == if r.0 {
                old(programs)@[program_id@].waiting_notify
            } else {
                None
            },
            final(programs)@ == with_resumed(old(programs)@, program_id@, backend_url@),
    {
        match self.release_program(programs, program_id, backend_url) {
            Some(handle) => (true, wake(handle)),
            None => (false, None),
        }
    }

    /// The address of the first backend.
    pub fn first_backend_url(&self) -> (r: Option<String>)
        ensures
            (match r {
                Some(url) => Some(url@),
                None => None,
            }) == if self@.backends.len() > 0 {
                Some(self@.backends[0].url)
            } else {
                None
            },
    {
        if self.backends.len() > 0 {
            assert(self@.backends[0] == self.backends@[0]@);
            Some(self.backends[0].url().to_owned())
        } else {
            None
        }
    }

    /// Decides about a program whose request has waited: a request that was woken goes on, and one
    /// that waited too long has its program taken out of its pause on the first backend. Hands back
    /// the handle that the program's requests wait on, if it was taken out and there is one.
    pub fn release_or_force(
        &self,
        programs: &mut ProgramRegistry,
        program_id: &str,
        woken: bool,
    ) -> (r: Option<Arc<Notify>>)
        ensures
            r == if !woken && self@.backends.len() > 0 && resumable(old(programs)@, program_id@) {
                old(programs)@[program_id@].waiting_notify
            } else {
                None
            },
            final(programs)@ == if !woken && self@.backends.len() > 0 {
                with_resumed(old(programs)@, program_id@, self@.backends[0].url)
            } else {
                old(programs)@
            },
    {
        if woken {
            return None;
        }
        match self.first_backend_url() {
            Some(url) => match self.release_program(programs, program_id, url.as_str()) {
                Some(notify) => notify,
                None => None,
            },
            None => None,
        }
    }

    /// Decides about a program whose request has waited: a request that was woken goes on, and one
    /// that waited too long has its program resumed on the first backend and its requests woken.
    /// Gives the receipt for the program's handle, if it was resumed and has one.
    pub fn wait_for_resume_or_force(
        &self,
        programs: &mut ProgramRegistry,
        program_id: &str,
        woken: bool,
    ) -> (r: Option<Woken>)
        ensures
            woken_handle(r) == if !woken && self@.backends.len() > 0 && resumable(
                old(programs)@,
                program_id@,
            ) {
                old(programs)@[program_id@].waiting_notify
            } else {
                None
            },
            final(programs)@ == if !woken && self@.backends.len() > 0 {
                with_resumed(old(programs)@, program_id@, self@.backends[0].url)
            } else {
                old(programs)@
            },
    {
        wake(self.release_or_force(programs, program_id, woken))
    }

    /// Takes the candidates, in order, out of their pauses, each on the first backend that has room
    /// for it, and hands back the handles that their requests wait on.
    fn place(
        &self,
        programs: &mut ProgramRegistry,
        rooms: Vec<(usize, i128)>,
        selected: &Vec<ResumeCandidate>,
    ) -> (handles: Vec<Arc<Notify>>)
        requires
            forall|i: int|
                0 <= i < rooms@.len() ==> (#[trigger] rooms@[i]).0 < self@.backends.len()
                    && i64::MIN <= rooms@[i].1 <= i64::MAX,
        ensures
            final(programs)@ == placed(
                old(programs)@,
                rooms@.map_values(room_value()),
                candidates_view(selected@),
                self@.urls(),
            ).0,
            handles@ == handles_of(
                old(programs)@,
                placements(
                    old(programs)@,
                    rooms@.map_values(room_value()),
                    candidates_view(selected@),
                    self@.urls(),
                ),
            ),
    {
        let ghost values = candidates_view(selected@);
        let ghost start = rooms@.map_values(room_value());
        let mut handles: Vec<Arc<Notify>> = Vec::new();
        let mut left = rooms;
        let mut n: usize = 0;
        proof {
            assert(values.take(0) =~= Seq::empty());
        }
        while n < selected.len()
            invariant
                n <= selected@.len(),
                values == candidates_view(selected@),
                (programs@, left@.map_values(room_value())) == placed(
                    old(programs)@,
                    start,
                    values.take(n as int),
                    self@.urls(),
                ),
                handles@ == handles_of(
                    old(programs)@,
                    placements(old(programs)@, start, values.take(n as int), self@.urls()),
                ),
                forall|i: int|
                    0 <= i < left@.len() ==> (#[trigger] left@[i]).0 < self@.backends.len()
                        && i64::MIN <= left@[i].1 <= 0x7fff_ffff_ffff_ffff
                        + 0x8000_0000_0000_0000 * n,
            decreases selected@.len() - n,
        {
            let candidate = &selected[n];
            let needed: i128 = candidate.required_tokens() as i128;
            let ghost done = placements(
                old(programs)@,
                start,
                values.take(n as int),
                self@.urls(),
            );
            proof {
                assert(values.take(n + 1).drop_last() == values.take(n as int));
                assert(values.take(n + 1).last() == candidate@);
                the_paused_are_untouched(
                    old(programs)@,
                    start,
                    values.take(n as int),
                    self@.urls(),
                    candidate.program_id@,
                );
            }
            let i = find_room(&left, needed);
            if i < left.len() {
                let backend: usize = left[i].0;
                proof {
                    assert(self@.backends[backend as int] == self.backends@[backend as int]@);
                    assert(left@.map_values(room_value())[i as int].0 == backend);
                    assert(done.push((candidate@, backend as int)).drop_last() =~= done);
                }
                if let Some(released) = self.release_program(
                    programs,
                    candidate.program_id.as_str(),
                    self.backends[backend].url(),
                ) {
                    if let Some(notify) = released {
                        handles.push(notify);
                    }
                    left = take_room(left, i, needed);
                }
            }
            n = n + 1;
        }
        proof {
            assert(values.take(values.len() as int) == values);
        }
        handles
    }

    /// Takes candidates out of their pauses as far as the rooms allow, and hands back the handles
    /// that their requests wait on. The number before a room is that of its backend.
    pub fn release_candidates(
        &self,
        programs: &mut ProgramRegistry,
        rooms: Vec<(usize, i64)>,
        candidates: Vec<ResumeCandidate>,
    ) -> (handles: Vec<Arc<Notify>>)
        requires
            forall|i: int|
                0 <= i < rooms@.len() ==> (#[trigger] rooms@[i]).0 < self@.backends.len(),
        ensures
            final(programs)@ == resumption(
                old(programs)@,
                rooms_view(rooms@),
                candidates_view(candidates@),
                self@.urls(),
            ),
            handles@ == handles_of(
                old(programs)@,
                resumption_placements(
                    old(programs)@,
                    rooms_view(rooms@),
                    candidates_view(candidates@),
                    self@.urls(),
                ),
            ),
    {
        let room = add_rooms(&rooms);
        if room <= 0 {
            return Vec::new();
        }
        let ranked = sort_stable::<ResumeCandidate, CandidateView, _>(
            candidates,
            ranks_before,
            Ghost(|candidate: ResumeCandidate| candidate@),
            Ghost(ranked_before()),
        );
        let chosen = pick_fitting(ranked, room);
        let selected = sort_stable::<ResumeCandidate, CandidateView, _>(
            chosen,
            is_larger,
            Ghost(|candidate: ResumeCandidate| candidate@),
            Ghost(larger_before()),
        );
        let wide = widened(&rooms);
        let left = sort_rooms(wide);
        proof {
            assert forall|i: int| 0 <= i < left@.len() implies (#[trigger] left@[i]).0
                < self@.backends.len() && i64::MIN <= left@[i].1 <= i64::MAX by {
                broadcast use vstd::seq_lib::group_to_multiset_ensures;

                assert(left@.contains(left@[i]));
                assert(wide@.to_multiset().count(left@[i]) > 0);
                assert(wide@.contains(left@[i]));
            }
        }
        self.place(programs, left, &selected)
    }

    /// Resumes candidates as far as the rooms allow and wakes the requests that wait for them, with
    /// receipts for their handles. The number before a room is that of its backend.
    pub fn resume_candidates(
        &self,
        programs: &mut ProgramRegistry,
        rooms: Vec<(usize, i64)>,
        candidates: Vec<ResumeCandidate>,
    ) -> (receipts: Vec<Woken>)
        requires
            forall|i: int|
                0 <= i < rooms@.len() ==> (#[trigger] rooms@[i]).0 < self@.backends.len(),
        ensures
            final(programs)@ == resumption(
                old(programs)@,
                rooms_view(rooms@),
                candidates_view(candidates@),
                self@.urls(),
            ),
            woken_handles(receipts@) == handles_of(
                old(programs)@,
                resumption_placements(
                    old(programs)@,
                    rooms_view(rooms@),
                    candidates_view(candidates@),
                    self@.urls(),
                ),
            ),
    {
        wake_all(self.release_candidates(programs, rooms, candidates))
    }

    /// Takes paused programs out of their pauses as far as the room on the backends allows, and
    /// hands back the handles that their requests wait on. The programs on backend `i` use `used[i]`
    /// tokens. Programs that rank alike are taken in the order of some walk over all programs.
    pub fn greedy_release(&self, programs: &mut ProgramRegistry, used: &Vec<u64>) -> (handles: Vec<
        Arc<Notify>,
    >)
        requires
            used@.len() == self@.backends.len(),
            self@.rooms_fit(old(programs)@, used@),
        ensures
            self@.greedily_released(old(programs)@, used@, final(programs)@, handles@),
            self@.greedily_resumed(old(programs)@, used@, final(programs)@),
    {
        let rooms = self.backend_capacities(programs, used);
        let candidates = self.paused_candidates(programs);
        let ghost entries = choose|entries: Seq<(String, Program)>|
            lists(entries, programs@) && candidates_view(candidates@) == #[trigger] candidates_of(
                entries,
            );
        let handles = self.release_candidates(programs, rooms, candidates);
        proof {
            assert(self@.resumed_in_order(old(programs)@, used@, entries, programs@));
        }
        handles
    }

    /// Resumes paused programs as far as the room on the backends allows, and wakes the requests
    /// that wait for them, with receipts for their handles. The programs on backend `i` use `used[i]`
    /// tokens.
    pub fn greedy_resume(&self, programs: &mut ProgramRegistry, used: &Vec<u64>) -> (receipts: Vec<
        Woken,
    >)
        requires
            used@.len() == self@.backends.len(),
            self@.rooms_fit(old(programs)@, used@),
        ensures
            self@.greedily_resumed(old(programs)@, used@, final(programs)@),
            self@.greedily_released(
                old(programs)@,
                used@,
                final(programs)@,
                woken_handles(receipts@),
            ),
    {
        wake_all(self.greedy_release(programs, used))
    }

    /// Whether there is a number of used tokens for each backend and the room on each healthy one
    /// can be worked out within 64 bits.
    fn room_is_known(&self, programs: &ProgramRegistry, used: &Vec<u64>) -> (r: bool)
        ensures
            r == (used@.len() == self@.backends.len() && self@.rooms_fit(programs@, used@)),
    {
        if used.len() != self.backends.len() {
            return false;
        }
        let mut n: usize = 0;
        while n < self.backends.len()
            invariant
                n <= self@.backends.len(),
                used@.len() == self@.backends.len(),
                forall|i: int|
                    0 <= i < n && (#[trigger] self@.backends[i]).metrics.healthy
                        ==> self@.backends[i].remaining_fits(programs@, used@[i]),
            decreases self@.backends.len() - n,
        {
            let backend = &self.backends[n];
            assert(self@.backends[n as int] == backend@);
            if backend.healthy() && backend.checked_remaining_capacity(
                programs,
                used[n],
            ).is_none() {
                return false;
            }
            n = n + 1;
        }
        true
    }

    /// Takes paused programs out of their pauses as far as the room on the backends allows, and
    /// hands back the handles that their requests wait on; nothing is done where that room cannot be
    /// worked out within 64 bits or a number of used tokens is missing.
    pub fn try_greedy_release(&self, programs: &mut ProgramRegistry, used: &Vec<u64>) -> (r: Option<
        Vec<Arc<Notify>>,
    >)
        ensures
            r is Some <==> used@.len() == self@.backends.len() && self@.rooms_fit(
                old(programs)@,
                used@,
            ),
            match r {
                Some(handles) => self@.greedily_released(
                    old(programs)@,
                    used@,
                    final(programs)@,
                    handles@,
                ) && self@.greedily_resumed(old(programs)@, used@, final(programs)@),
                None => final(programs)@ == old(programs)@,
            },
    {
        if self.room_is_known(programs, used) {
            Some(self.greedy_release(programs, used))
        } else {
            None
        }
    }

    /// Resumes paused programs as far as the room on the backends allows, and wakes the requests
    /// that wait for them, with receipts for their handles; nothing is done where that room cannot be
    /// worked out within 64 bits or a number of used tokens is missing.
    pub fn try_greedy_resume(&self, programs: &mut ProgramRegistry, used: &Vec<u64>) -> (r: Option<
        Vec<Woken>,
    >)
        ensures
            r is Some <==> used@.len() == self@.backends.len() && self@.rooms_fit(
                old(programs)@,
                used@,
            ),
            match r {
                Some(receipts) => self@.greedily_released(
                    old(programs)@,
                    used@,
                    final(programs)@,
                    woken_handles(receipts@),
                ) && self@.greedily_resumed(old(programs)@, used@, final(programs)@),
                None => final(programs)@ == old(programs)@,
            },
    {
        match self.try_greedy_release(programs, used) {
            Some(handles) => Some(wake_all(handles)),
            None => None,
        }
    }
}

/// Wakes what waits on a handle, if there is one.
fn wake(handle: Option<Arc<Notify>>) -> (receipt: Option<Woken>)
    ensures
        woken_handle(receipt) == handle,
{
    match handle {
        Some(handle) => Some(notify(handle)),
        None => None,
    }
}

/// Wakes what waits on the handles, in their order.
fn wake_all(handles: Vec<Arc<Notify>>) -> (receipts: Vec<Woken>)
    ensures
        woken_handles(receipts@) == handles@,
{
    let mut receipts: Vec<Woken> = Vec::new();
    let ghost all = handles@;
    proof {
        assert(woken_handles(receipts@) =~= all.take(0));
    }
    for handle in it: handles
        invariant
            it.seq() == all,
            woken_handles(receipts@) == all.take(it.index() as int),
    {
        let ghost before = receipts@;
        let receipt = notify(handle);
        proof {
            assert(woken_handles(before.push(receipt)) =~= woken_handles(before).push(handle));
            assert(all.take(it.index() + 1) =~= all.take(it.index() as int).push(handle));
        }
        receipts.push(receipt);
    }
    assert(all.take(all.len() as int) == all);
    receipts
}

/// The handles that the requests of the given candidates wait on, in the order of the candidates.
pub open spec fn handles_of(
    programs: Map<Seq<char>, ProgramView>,
    placements: Seq<(CandidateView, int)>,
) -> Seq<Arc<Notify>>
    decreases placements.len(),
{
    if placements.len() == 0 {
        Seq::empty()
    } else {
        let before = handles_of(programs, placements.drop_last());
        match programs[placements.last().0.program_id].waiting_notify {
            Some(notify) => before.push(notify),
            None => before,
        }
    }
}

proof fn the_paused_are_untouched(
    programs: Map<Seq<char>, ProgramView>,
    rooms: Seq<(int, int)>,
    candidates: Seq<CandidateView>,
    urls: Seq<Seq<char>>,
    id: Seq<char>,
)
    ensures
        resumable(placed(programs, rooms, candidates, urls).0, id) ==> resumable(programs, id)
            && placed(programs, rooms, candidates, urls).0[id] == programs[id],
    decreases candidates.len(),
{
    if candidates.len() > 0 {
        the_paused_are_untouched(programs, rooms, candidates.drop_last(), urls, id);
    }
}

/// Which candidates are resumed, and on which backends.
pub open spec fn placements(
    programs: Map<Seq<char>, ProgramView>,
    rooms: Seq<(int, int)>,
    candidates: Seq<CandidateView>,
    urls: Seq<Seq<char>>,
) -> Seq<(CandidateView, int)>
    decreases candidates.len(),
{
    if candidates.len() == 0 {
        Seq::empty()
    } else {
        let done = placements(programs, rooms, candidates.drop_last(), urls);
        let (before, left) = placed(programs, rooms, candidates.drop_last(), urls);
        let next = candidates.last();
        let i = first_fit(left, room_for(next.total_tokens));
        if 0 <= i < left.len() && resumable(before, next.program_id) {
            done.push((next, left[i].0))
        } else {
            done
        }
    }
}

/// The programs once the given candidates are resumed on the given backends.
pub open spec fn with_all_resumed(
    programs: Map<Seq<char>, ProgramView>,
    placements: Seq<(CandidateView, int)>,
    urls: Seq<Seq<char>>,
) -> Map<Seq<char>, ProgramView>
    decreases placements.len(),
{
    if placements.len() == 0 {
        programs
    } else {
        let (candidate, backend) = placements.last();
        with_resumed(
            with_all_resumed(programs, placements.drop_last(), urls),
            candidate.program_id,
            urls[backend],
        )
    }
}

/// The room that the candidates on a backend need together.
pub open spec fn room_taken(placements: Seq<(CandidateView, int)>, backend: int) -> int
    decreases placements.len(),
{
    if placements.len() == 0 {
        0
    } else {
        room_taken(placements.drop_last(), backend) + if placements.last().1 == backend {
            room_for(placements.last().0.total_tokens)
        } else {
            0
        }
    }
}

/// Resuming candidates is resuming each of those that are placed on its backend, and nothing else.
pub proof fn resuming_is_placing(
    programs: Map<Seq<char>, ProgramView>,
    rooms: Seq<(int, int)>,
    candidates: Seq<CandidateView>,
    urls: Seq<Seq<char>>,
)
    ensures
        placed(programs, rooms, candidates, urls).0 == with_all_resumed(
            programs,
            placements(programs, rooms, candidates, urls),
            urls,
        ),
    decreases candidates.len(),
{
    if candidates.len() > 0 {
        resuming_is_placing(programs, rooms, candidates.drop_last(), urls);
        let done = placements(programs, rooms, candidates.drop_last(), urls);
        let all = placements(programs, rooms, candidates, urls);
        if all != done {
            assert(all.drop_last() == done);
        }
    }
}

/// The number of a room's backend.
pub open spec fn backend_number() -> spec_fn((int, int)) -> int {
    |room: (int, int)| room.0
}

proof fn a_fit_is_a_fit(rooms: Seq<(int, int)>, needed: int)
    ensures
        0 <= first_fit(rooms, needed) <= rooms.len(),
        first_fit(rooms, needed) < rooms.len() ==> rooms[first_fit(rooms, needed)].1 >= needed,
        forall|i: int| 0 <= i < first_fit(rooms, needed) ==> (#[trigger] rooms[i]).1 < needed,
    decreases rooms.len(),
{
    if rooms.len() > 0 && rooms.first().1 < needed {
        let rest = rooms.drop_first();
        a_fit_is_a_fit(rest, needed);
        assert forall|i: int| 0 <= i < first_fit(rooms, needed) implies (#[trigger] rooms[i]).1
            < needed by {
            if i > 0 {
                assert(rooms[i] == rest[i - 1]);
            }
        }
    }
}

spec fn rooms_match(
    left: Seq<(int, int)>,
    rooms: Seq<(int, int)>,
    done: Seq<(CandidateView, int)>,
) -> bool {
    forall|room: (int, int)| #[trigger]
        left.contains(room) ==> exists|k: int|
            0 <= k < rooms.len() && (#[trigger] rooms[k]).0 == room.0 && room.1 == rooms[k].1
                - room_taken(done, room.0)
}

proof fn rooms_stay_matched(
    left: Seq<(int, int)>,
    rooms: Seq<(int, int)>,
    done: Seq<(CandidateView, int)>,
    i: int,
    next: CandidateView,
)
    requires
        distinct_by(left, backend_number()),
        rooms_match(left, rooms, done),
        0 <= i < left.len(),
    ensures
        distinct_by(rooms_after(left, i, room_for(next.total_tokens)), backend_number()),
        rooms_match(
            rooms_after(left, i, room_for(next.total_tokens)),
            rooms,
            done.push((next, left[i].0)),
        ),
{
    let needed = room_for(next.total_tokens);
    let all = done.push((next, left[i].0));
    let updated = left.update(i, (left[i].0, left[i].1 - needed));
    assert(all.drop_last() == done);
    assert(distinct_by(updated, backend_number())) by {
        assert forall|a: int, b: int| 0 <= a < b < updated.len() implies backend_number()(
            #[trigger] updated[a],
        ) != backend_number()(#[trigger] updated[b]) by {
            assert(backend_number()(left[a]) != backend_number()(left[b]));
        }
    }
    filtering_keeps_keys_distinct(updated, has_room(), backend_number());
    let kept = updated.filter(has_room());
    sorting_keeps_keys_distinct(kept, tighter_before(), backend_number());
    let after = rooms_after(left, i, needed);
    assert forall|room: (int, int)| #[trigger] after.contains(room) implies exists|k: int|
        0 <= k < rooms.len() && (#[trigger] rooms[k]).0 == room.0 && room.1 == rooms[k].1
            - room_taken(all, room.0) by {
        sorting_keeps_each_item(kept, tighter_before(), room);
        assert(updated.contains(room));
        let j = choose|j: int| 0 <= j < updated.len() && updated[j] == room;
        assert(left.contains(left[j]));
        let k = choose|k: int|
            0 <= k < rooms.len() && (#[trigger] rooms[k]).0 == left[j].0 && left[j].1
                == rooms[k].1 - room_taken(done, left[j].0);
        if j != i {
            if j < i {
                assert(backend_number()(left[j]) != backend_number()(left[i]));
            } else {
                assert(backend_number()(left[i]) != backend_number()(left[j]));
            }
        }
        assert(rooms[k].0 == room.0);
    }
}

proof fn rooms_are_kept_account_of(
    programs: Map<Seq<char>, ProgramView>,
    rooms: Seq<(int, int)>,
    candidates: Seq<CandidateView>,
    urls: Seq<Seq<char>>,
    b: int,
)
    requires
        distinct_by(rooms, backend_number()),
    ensures
        ({
            let left = placed(programs, rooms, candidates, urls).1;
            let done = placements(programs, rooms, candidates, urls);
            &&& distinct_by(left, backend_number())
            &&& rooms_match(left, rooms, done)
            &&& 0 <= b < rooms.len() && rooms[b].1 >= 0 ==> room_taken(done, rooms[b].0)
                <= rooms[b].1
        }),
    decreases candidates.len(),
{
    let done = placements(programs, rooms, candidates, urls);
    if candidates.len() == 0 {
        assert forall|room: (int, int)| #[trigger] rooms.contains(room) implies exists|k: int|
            0 <= k < rooms.len() && (#[trigger] rooms[k]).0 == room.0 && room.1 == rooms[k].1
                - room_taken(done, room.0) by {
            let k = choose|k: int| 0 <= k < rooms.len() && rooms[k] == room;
            assert(rooms[k].0 == room.0);
        }
    } else {
        rooms_are_kept_account_of(programs, rooms, candidates.drop_last(), urls, b);
        let before = placements(programs, rooms, candidates.drop_last(), urls);
        let (middle, left) = placed(programs, rooms, candidates.drop_last(), urls);
        let next = candidates.last();
        let needed = room_for(next.total_tokens);
        let i = first_fit(left, needed);
        a_fit_is_a_fit(left, needed);
        if i < left.len() && resumable(middle, next.program_id) {
            rooms_stay_matched(left, rooms, before, i, next);
            assert(done.drop_last() == before);
            if 0 <= b < rooms.len() && left[i].0 == rooms[b].0 {
                assert(left.contains(left[i]));
                let k = choose|k: int|
                    0 <= k < rooms.len() && (#[trigger] rooms[k]).0 == left[i].0 && left[i].1
                        == rooms[k].1 - room_taken(before, left[i].0);
                if k < b {
                    assert(backend_number()(rooms[k]) != backend_number()(rooms[b]));
                }
                if b < k {
                    assert(backend_number()(rooms[b]) != backend_number()(rooms[k]));
                }
            }
        }
    }
}

/// Which candidates are resumed, and on which backends, as far as the rooms allow.
pub open spec fn resumption_placements(
    programs: Map<Seq<char>, ProgramView>,
    rooms: Seq<(int, int)>,
    candidates: Seq<CandidateView>,
    urls: Seq<Seq<char>>,
) -> Seq<(CandidateView, int)> {
    let room = total_room(rooms);
    if room <= 0 {
        Seq::empty()
    } else {
        let chosen = admitted(stable_sorted(candidates, ranked_before()), room).0;
        placements(
            programs,
            stable_sorted(rooms, tighter_before()),
            stable_sorted(chosen, larger_before()),
            urls,
        )
    }
}

/// Resuming as far as the rooms allow is resuming each of the programs that are placed on its
/// backend, and nothing else.
pub proof fn a_resumption_is_its_placements(
    programs: Map<Seq<char>, ProgramView>,
    rooms: Seq<(int, int)>,
    candidates: Seq<CandidateView>,
    urls: Seq<Seq<char>>,
)
    ensures
        resumption(programs, rooms, candidates, urls) == with_all_resumed(
            programs,
            resumption_placements(programs, rooms, candidates, urls),
            urls,
        ),
{
    let chosen = admitted(stable_sorted(candidates, ranked_before()), total_room(rooms)).0;
    resuming_is_placing(
        programs,
        stable_sorted(rooms, tighter_before()),
        stable_sorted(chosen, larger_before()),
        urls,
    );
}

/// No backend is given more than it has room for: the programs placed on it need, together, at most
/// the room that it had.
pub proof fn no_backend_is_overcommitted(
    programs: Map<Seq<char>, ProgramView>,
    rooms: Seq<(int, int)>,
    candidates: Seq<CandidateView>,
    urls: Seq<Seq<char>>,
    b: int,
)
    requires
        distinct_by(rooms, backend_number()),
        0 <= b < rooms.len(),
        rooms[b].1 >= 0,
    ensures
        room_taken(resumption_placements(programs, rooms, candidates, urls), rooms[b].0)
            <= rooms[b].1,
{
    let chosen = admitted(stable_sorted(candidates, ranked_before()), total_room(rooms)).0;
    let sorted = stable_sorted(rooms, tighter_before());
    sorting_keeps_keys_distinct(rooms, tighter_before(), backend_number());
    sorting_keeps_each_item(rooms, tighter_before(), rooms[b]);
    assert(rooms.contains(rooms[b]));
    let k = choose|k: int| 0 <= k < sorted.len() && sorted[k] == rooms[b];
    rooms_are_kept_account_of(programs, sorted, stable_sorted(chosen, larger_before()), urls, k);
}

/// The programs that are chosen fit all room together.
pub proof fn the_chosen_fit(candidates: Seq<CandidateView>, room: int)
    requires
        room >= 0,
    ensures
        admitted(candidates, room).1 <= room,
    decreases candidates.len(),
{
    if candidates.len() > 0 {
        the_chosen_fit(candidates.drop_last(), room);
    }
}

/// `after` is the paused program `before`, resumed on one of the backends with room.
pub open spec fn resumed_on_one(
    before: ProgramView,
    after: ProgramView,
    rooms: Seq<(int, int)>,
    urls: Seq<Seq<char>>,
) -> bool {
    before.state == ProgramState::Paused && exists|k: int|
        0 <= k < rooms.len() && after == before.resumed(urls[(#[trigger] rooms[k]).0])
}

/// `after` has the same programs as `before`; each is as it was, or was paused and is resumed on one
/// of the backends with room.
pub open spec fn only_resumes(
    before: Map<Seq<char>, ProgramView>,
    after: Map<Seq<char>, ProgramView>,
    rooms: Seq<(int, int)>,
    urls: Seq<Seq<char>>,
) -> bool {
    &&& after.dom() == before.dom()
    &&& forall|id: Seq<char>| #[trigger]
        before.contains_key(id) ==> after[id] == before[id] || resumed_on_one(
            before[id],
            after[id],
            rooms,
            urls,
        )
}

proof fn placing_only_resumes(
    programs: Map<Seq<char>, ProgramView>,
    rooms: Seq<(int, int)>,
    candidates: Seq<CandidateView>,
    urls: Seq<Seq<char>>,
)
    requires
        distinct_by(rooms, backend_number()),
    ensures
        only_resumes(programs, placed(programs, rooms, candidates, urls).0, rooms, urls),
        forall|k: int|
            0 <= k < placements(programs, rooms, candidates, urls).len() ==> {
                let id = (#[trigger] placements(programs, rooms, candidates, urls)[k]).0.program_id;
                resumable(programs, id) && !resumable(
                    placed(programs, rooms, candidates, urls).0,
                    id,
                )
            },
    decreases candidates.len(),
{
    if candidates.len() > 0 {
        placing_only_resumes(programs, rooms, candidates.drop_last(), urls);
        rooms_are_kept_account_of(programs, rooms, candidates.drop_last(), urls, 0);
        let (middle, left) = placed(programs, rooms, candidates.drop_last(), urls);
        let done = placements(programs, rooms, candidates.drop_last(), urls);
        let next = candidates.last();
        let i = first_fit(left, room_for(next.total_tokens));
        a_fit_is_a_fit(left, room_for(next.total_tokens));
        if i < left.len() && resumable(middle, next.program_id) {
            let after = placed(programs, rooms, candidates, urls).0;
            let all = placements(programs, rooms, candidates, urls);
            assert(left.contains(left[i]));
            let k = choose|k: int|
                0 <= k < rooms.len() && (#[trigger] rooms[k]).0 == left[i].0 && left[i].1
                    == rooms[k].1 - room_taken(done, left[i].0);
            assert(programs.contains_key(next.program_id));
            assert(resumed_on_one(
                programs[next.program_id],
                after[next.program_id],
                rooms,
                urls,
            )) by {
                assert(after[next.program_id] == programs[next.program_id].resumed(
                    urls[rooms[k].0],
                ));
            }
            assert(after.dom() =~= programs.dom());
            assert forall|k: int| 0 <= k < all.len() implies resumable(
                programs,
                (#[trigger] all[k]).0.program_id,
            ) && !resumable(after, all[k].0.program_id) by {
                if k < done.len() {
                    assert(all[k] == done[k]);
                }
            }
        }
    }
}

proof fn the_same_rooms(
    before: Map<Seq<char>, ProgramView>,
    after: Map<Seq<char>, ProgramView>,
    rooms: Seq<(int, int)>,
    sorted: Seq<(int, int)>,
    urls: Seq<Seq<char>>,
)
    requires
        only_resumes(before, after, sorted, urls),
        forall|room: (int, int)| sorted.contains(room) ==> rooms.contains(room),
    ensures
        only_resumes(before, after, rooms, urls),
{
    assert forall|id: Seq<char>| #[trigger] before.contains_key(id) implies after[id] == before[id]
        || resumed_on_one(before[id], after[id], rooms, urls) by {
        if after[id] != before[id] {
            let k = choose|k: int|
                0 <= k < sorted.len() && after[id] == before[id].resumed(
                    urls[(#[trigger] sorted[k]).0],
                );
            assert(rooms.contains(sorted[k]));
            let m = choose|m: int| 0 <= m < rooms.len() && rooms[m] == sorted[k];
            assert(after[id] == before[id].resumed(urls[rooms[m].0]));
        }
    }
}

/// A resumption changes paused programs only: no program comes or goes, and each is as it was or
/// was paused and is active on one of the backends with room.
pub proof fn a_resumption_only_resumes(
    programs: Map<Seq<char>, ProgramView>,
    rooms: Seq<(int, int)>,
    candidates: Seq<CandidateView>,
    urls: Seq<Seq<char>>,
)
    requires
        distinct_by(rooms, backend_number()),
    ensures
        only_resumes(programs, resumption(programs, rooms, candidates, urls), rooms, urls),
{
    let chosen = admitted(stable_sorted(candidates, ranked_before()), total_room(rooms)).0;
    let sorted = stable_sorted(rooms, tighter_before());
    sorting_keeps_keys_distinct(rooms, tighter_before(), backend_number());
    placing_only_resumes(programs, sorted, stable_sorted(chosen, larger_before()), urls);
    assert forall|room: (int, int)| sorted.contains(room) implies rooms.contains(room) by {
        sorting_keeps_each_item(rooms, tighter_before(), room);
    }
    if total_room(rooms) > 0 {
        the_same_rooms(
            programs,
            resumption(programs, rooms, candidates, urls),
            rooms,
            sorted,
            urls,
        );
    }
}

/// Candidates are considered by rank, and within a rank those with fewer tokens first.
pub proof fn candidates_are_ranked(candidates: Seq<CandidateView>, i: int, j: int)
    requires
        0 <= i < j < candidates.len(),
    ensures
        stable_sorted(candidates, ranked_before()).len() == candidates.len(),
        ({
            let ranked = stable_sorted(candidates, ranked_before());
            ranked[i].priority < ranked[j].priority || (ranked[i].priority == ranked[j].priority
                && ranked[i].total_tokens <= ranked[j].total_tokens)
        }),
{
    sorting_keeps_the_number(candidates, ranked_before());
    sorting_sorts(candidates, ranked_before());
    let ranked = stable_sorted(candidates, ranked_before());
    assert(!ranked_before()(ranked[j], ranked[i]));
}

/// Every paused program is considered, with its tokens and its rank, and no other program is.
pub proof fn paused_programs_are_considered(
    entries: Seq<(String, Program)>,
    programs: Map<Seq<char>, ProgramView>,
    candidate: CandidateView,
)
    requires
        lists(entries, programs),
    ensures
        candidates_of(entries).contains(candidate) <==> resumable(programs, candidate.program_id)
            && candidate.total_tokens == programs[candidate.program_id].total_tokens
            && candidate.priority == priority_of(programs[candidate.program_id]),
{
    candidates_come_from_entries(entries, candidate);
    let id = candidate.program_id;
    if resumable(programs, id) {
        let i = choose|i: int| 0 <= i < entries.len() && (#[trigger] entries[i]).0@ == id;
        assert(programs[entries[i].0@] == entries[i].1@);
    }
}

/// Whether a candidate stands for the paused program of an entry.
pub open spec fn made_from(candidate: CandidateView, entry: (String, Program)) -> bool {
    &&& entry.1@.state == ProgramState::Paused
    &&& candidate.program_id == entry.0@
    &&& candidate.total_tokens == entry.1@.total_tokens
    &&& candidate.priority == priority_of(entry.1@)
}

pub(crate) proof fn candidates_come_from_entries(
    entries: Seq<(String, Program)>,
    candidate: CandidateView,
)
    ensures
        candidates_of(entries).contains(candidate) <==> exists|i: int|
            0 <= i < entries.len() && made_from(candidate, #[trigger] entries[i]),
    decreases entries.len(),
{
    if entries.len() > 0 {
        let front = entries.drop_last();
        let last = entries.last();
        candidates_come_from_entries(front, candidate);
        let before = candidates_of(front);
        let all = candidates_of(entries);
        if all.contains(candidate) {
            let k = choose|k: int| 0 <= k < all.len() && all[k] == candidate;
            if k < before.len() {
                assert(before[k] == candidate);
                assert(before.contains(candidate));
                let i = choose|i: int|
                    0 <= i < front.len() && made_from(candidate, #[trigger] front[i]);
                assert(made_from(candidate, entries[i]));
            } else {
                assert(made_from(candidate, entries[entries.len() - 1]));
            }
        }
        if exists|i: int| 0 <= i < entries.len() && made_from(candidate, #[trigger] entries[i]) {
            let i = choose|i: int|
                0 <= i < entries.len() && made_from(candidate, #[trigger] entries[i]);
            if i < front.len() {
                assert(made_from(candidate, front[i]));
                let k = choose|k: int| 0 <= k < before.len() && before[k] == candidate;
                assert(all[k] == candidate);
            } else {
                assert(all[all.len() - 1] == candidate);
            }
        }
    }
}

/// Only healthy backends with a known cache and room for a buffer are given programs, each backend
/// by its own number and with the room that it has.
pub proof fn rooms_are_on_healthy_backends(
    scheduler: SchedulerView,
    programs: Map<Seq<char>, ProgramView>,
    used: Seq<u64>,
    n: int,
)
    requires
        n <= scheduler.backends.len(),
    ensures
        distinct_by(scheduler.rooms(programs, used, n), backend_number()),
        forall|i: int|
            0 <= i < scheduler.rooms(programs, used, n).len() ==> ({
                let room = #[trigger] scheduler.rooms(programs, used, n)[i];
                let backend = scheduler.backends[room.0];
                &&& 0 <= room.0 < n
                &&& backend.metrics.healthy
                &&& backend.remaining(programs, used[room.0]) matches Some(left) && left == room.1
                &&& has_room()(room)
            }),
    decreases n,
{
    if n > 0 {
        rooms_are_on_healthy_backends(scheduler, programs, used, n - 1);
        let before = scheduler.rooms(programs, used, n - 1);
        let all = scheduler.rooms(programs, used, n);
        assert forall|i: int, j: int| 0 <= i < j < all.len() implies backend_number()(
            #[trigger] all[i],
        ) != backend_number()(#[trigger] all[j]) by {
            assert(all[i] == before[i]);
            if j < before.len() {
                assert(backend_number()(before[i]) != backend_number()(before[j]));
            }
        }
    }
}

/// A resumption by the scheduler changes paused programs only, and resumes them on healthy backends
/// with room.
pub proof fn the_scheduler_only_resumes(
    scheduler: SchedulerView,
    programs: Map<Seq<char>, ProgramView>,
    used: Seq<u64>,
    after: Map<Seq<char>, ProgramView>,
)
    requires
        scheduler.greedily_resumed(programs, used, after),
    ensures
        only_resumes(
            programs,
            after,
            scheduler.rooms(programs, used, scheduler.backends.len() as int),
            scheduler.urls(),
        ),
{
    let entries = choose|entries: Seq<(String, Program)>| #[trigger]
        scheduler.resumed_in_order(programs, used, entries, after);
    rooms_are_on_healthy_backends(scheduler, programs, used, scheduler.backends.len() as int);
    a_resumption_only_resumes(
        programs,
        scheduler.rooms(programs, used, scheduler.backends.len() as int),
        candidates_of(entries),
        scheduler.urls(),
    );
}

proof fn nothing_placed(
    programs: Map<Seq<char>, ProgramView>,
    rooms: Seq<(int, int)>,
    candidates: Seq<CandidateView>,
    urls: Seq<Seq<char>>,
    c: int,
)
    requires
        placements(programs, rooms, candidates, urls).len() == 0,
        0 <= c < candidates.len(),
    ensures
        placed(programs, rooms, candidates, urls) == (programs, rooms),
        resumable(programs, candidates[c].program_id) ==> first_fit(
            rooms,
            room_for(candidates[c].total_tokens),
        ) >= rooms.len(),
    decreases candidates.len(),
{
    let front = candidates.drop_last();
    a_fit_is_a_fit(rooms, room_for(candidates.last().total_tokens));
    if front.len() > 0 {
        if c < front.len() {
            nothing_placed(programs, rooms, front, urls, c);
        } else {
            nothing_placed(programs, rooms, front, urls, 0);
        }
    }
}

proof fn the_first_is_chosen(candidates: Seq<CandidateView>, room: int)
    requires
        candidates.len() > 0,
        room_for(candidates[0].total_tokens) <= room,
    ensures
        admitted(candidates, room).0.contains(candidates[0]),
    decreases candidates.len(),
{
    let front = candidates.drop_last();
    let before = admitted(front, room).0;
    let all = admitted(candidates, room).0;
    if front.len() > 0 {
        the_first_is_chosen(front, room);
        let k = choose|k: int| 0 <= k < before.len() && before[k] == candidates[0];
        assert(all[k] == candidates[0]);
    } else {
        assert(admitted(front, room).1 == 0);
        assert(all[0] == candidates[0]);
    }
}

proof fn a_room_is_part_of_all(rooms: Seq<(int, int)>, k: int)
    requires
        0 <= k < rooms.len(),
        forall|i: int| 0 <= i < rooms.len() ==> has_room()(#[trigger] rooms[i]),
    ensures
        rooms[k].1 <= total_room(rooms),
        total_room(rooms) > 0,
    decreases rooms.len(),
{
    let front = rooms.drop_last();
    assert(has_room()(rooms[rooms.len() - 1]));
    assert forall|i: int| 0 <= i < front.len() implies has_room()(#[trigger] front[i]) by {
        assert(has_room()(rooms[i]));
    }
    if front.len() > 0 {
        a_room_is_part_of_all(front, if k < front.len() { k } else { 0 });
    } else {
        assert(total_room(front) == 0);
    }
}

/// Room does not lie idle: where the first candidate by rank fits on some backend, at least one
/// paused program is resumed.
pub proof fn room_does_not_lie_idle(
    programs: Map<Seq<char>, ProgramView>,
    rooms: Seq<(int, int)>,
    candidates: Seq<CandidateView>,
    urls: Seq<Seq<char>>,
    k: int,
)
    requires
        distinct_by(rooms, backend_number()),
        forall|i: int| 0 <= i < rooms.len() ==> has_room()(#[trigger] rooms[i]),
        0 <= k < rooms.len(),
        candidates.len() > 0,
        ({
            let first = stable_sorted(candidates, ranked_before())[0];
            resumable(programs, first.program_id) && room_for(first.total_tokens) <= rooms[k].1
        }),
    ensures
        exists|id: Seq<char>| #[trigger]
            resumable(programs, id) && !resumable(
                resumption(programs, rooms, candidates, urls),
                id,
            ),
{
    let ranked = stable_sorted(candidates, ranked_before());
    let room = total_room(rooms);
    let chosen = admitted(ranked, room).0;
    let largest = stable_sorted(chosen, larger_before());
    let sorted = stable_sorted(rooms, tighter_before());
    let first = ranked[0];
    let needed = room_for(first.total_tokens);
    a_room_is_part_of_all(rooms, k);
    sorting_keeps_the_number(candidates, ranked_before());
    the_first_is_chosen(ranked, room);
    sorting_keeps_each_item(chosen, larger_before(), first);
    sorting_keeps_keys_distinct(rooms, tighter_before(), backend_number());
    placing_only_resumes(programs, sorted, largest, urls);
    let done = placements(programs, sorted, largest, urls);
    if done.len() == 0 {
        let c = choose|c: int| 0 <= c < largest.len() && largest[c] == first;
        nothing_placed(programs, sorted, largest, urls, c);
        assert(rooms.contains(rooms[k]));
        sorting_keeps_each_item(rooms, tighter_before(), rooms[k]);
        let m = choose|m: int| 0 <= m < sorted.len() && sorted[m] == rooms[k];
        a_fit_is_a_fit(sorted, needed);
        assert(sorted[m].1 < needed);
    }
    assert(resumable(programs, done[0].0.program_id));
}

/// Where no backend has room nothing changes.
pub proof fn without_room_nothing_changes(
    programs: Map<Seq<char>, ProgramView>,
    candidates: Seq<CandidateView>,
    urls: Seq<Seq<char>>,
)
    ensures
        resumption(programs, Seq::empty(), candidates, urls) == programs,
{
}

/// Which candidates are chosen depends on those of their own and better rank only: whoever comes
/// later in the order takes nothing from those before.
pub proof fn later_candidates_take_nothing(candidates: Seq<CandidateView>, room: int, n: int)
    requires
        0 <= n <= candidates.len(),
    ensures
        admitted(candidates.take(n), room).0.is_prefix_of(admitted(candidates, room).0),
    decreases candidates.len(),
{
    if n < candidates.len() {
        let front = candidates.drop_last();
        later_candidates_take_nothing(front, room, n);
        assert(front.take(n) =~= candidates.take(n));
    } else {
        assert(candidates.take(n) =~= candidates);
    }
}

/// A paused program that is resumed goes on: it is active on the given backend, and every other
/// program is as it was.
pub proof fn a_resumed_program_goes_on(
    programs: Map<Seq<char>, ProgramView>,
    id: Seq<char>,
    url: Seq<char>,
    other: Seq<char>,
)
    requires
        resumable(programs, id),
        other != id,
    ensures
        with_resumed(programs, id, url)[id].state == ProgramState::Active,
        with_resumed(programs, id, url)[id].backend_url == Some(url),
        !resumable(with_resumed(programs, id, url), id),
        with_resumed(programs, id, url).dom() == programs.dom(),
        with_resumed(programs, id, url)[other] == programs[other],
{
    assert(with_resumed(programs, id, url).dom() =~= programs.dom());
}

/// Every healthy backend with a known cache and room for a buffer can be given programs, with the
/// room that it has.
pub proof fn a_healthy_backend_has_its_room(
    scheduler: SchedulerView,
    programs: Map<Seq<char>, ProgramView>,
    used: Seq<u64>,
    n: int,
    b: int,
    room: i64,
)
    requires
        0 <= b < n <= scheduler.backends.len(),
        scheduler.backends[b].metrics.healthy,
        scheduler.backends[b].remaining(programs, used[b]) == Some(room),
        room >= BUFFER_PER_PROGRAM,
    ensures
        scheduler.rooms(programs, used, n).contains((b, room as int)),
    decreases n,
{
    let before = scheduler.rooms(programs, used, n - 1);
    let all = scheduler.rooms(programs, used, n);
    if b < n - 1 {
        a_healthy_backend_has_its_room(scheduler, programs, used, n - 1, b, room);
        let k = choose|k: int| 0 <= k < before.len() && before[k] == (b, room as int);
        assert(all[k] == (b, room as int));
    } else {
        assert(all[all.len() - 1] == (b, room as int));
    }
}

/// When room comes free the scheduler resumes someone: where a healthy backend has room for each of
/// the paused programs by itself, and there is one, at least one paused program is resumed.
pub proof fn the_scheduler_uses_free_room(
    scheduler: SchedulerView,
    programs: Map<Seq<char>, ProgramView>,
    used: Seq<u64>,
    after: Map<Seq<char>, ProgramView>,
    b: int,
    room: i64,
    waiting: Seq<char>,
)
    requires
        scheduler.greedily_resumed(programs, used, after),
        0 <= b < scheduler.backends.len(),
        scheduler.backends[b].metrics.healthy,
        scheduler.backends[b].remaining(programs, used[b]) == Some(room),
        room >= BUFFER_PER_PROGRAM,
        resumable(programs, waiting),
        forall|id: Seq<char>| #[trigger]
            resumable(programs, id) ==> room_for(programs[id].total_tokens) <= room,
    ensures
        exists|id: Seq<char>| #[trigger] resumable(programs, id) && !resumable(after, id),
{
    let n = scheduler.backends.len() as int;
    let entries = choose|entries: Seq<(String, Program)>| #[trigger]
        scheduler.resumed_in_order(programs, used, entries, after);
    let rooms = scheduler.rooms(programs, used, n);
    let candidates = candidates_of(entries);
    rooms_are_on_healthy_backends(scheduler, programs, used, n);
    a_healthy_backend_has_its_room(scheduler, programs, used, n, b, room);
    let k = choose|k: int| 0 <= k < rooms.len() && rooms[k] == (b, room as int);
    let one = CandidateView {
        program_id: waiting,
        total_tokens: programs[waiting].total_tokens,
        priority: priority_of(programs[waiting]),
    };
    paused_programs_are_considered(entries, programs, one);
    sorting_keeps_the_number(candidates, ranked_before());
    let first = stable_sorted(candidates, ranked_before())[0];
    assert(stable_sorted(candidates, ranked_before()).contains(first));
    sorting_keeps_each_item(candidates, ranked_before(), first);
    paused_programs_are_considered(entries, programs, first);
    room_does_not_lie_idle(programs, rooms, candidates, scheduler.urls(), k);
}

/// Of rooms in order of size, the first that fits is the one that fits best: none with less room
/// fits.
pub proof fn the_first_fit_is_the_best(rooms: Seq<(int, int)>, needed: int, j: int)
    requires
        in_order(rooms, tighter_before()),
        0 <= j < rooms.len(),
        rooms[j].1 >= needed,
    ensures
        0 <= first_fit(rooms, needed) < rooms.len(),
        needed <= rooms[first_fit(rooms, needed)].1 <= rooms[j].1,
{
    a_fit_is_a_fit(rooms, needed);
    let i = first_fit(rooms, needed);
    if i < j {
        assert(!tighter_before()(rooms[j], rooms[i]));
    }
}

proof fn rooms_stay_in_order(
    programs: Map<Seq<char>, ProgramView>,
    rooms: Seq<(int, int)>,
    candidates: Seq<CandidateView>,
    urls: Seq<Seq<char>>,
)
    requires
        in_order(rooms, tighter_before()),
    ensures
        in_order(placed(programs, rooms, candidates, urls).1, tighter_before()),
    decreases candidates.len(),
{
    if candidates.len() > 0 {
        rooms_stay_in_order(programs, rooms, candidates.drop_last(), urls);
        let (before, left) = placed(programs, rooms, candidates.drop_last(), urls);
        let needed = room_for(candidates.last().total_tokens);
        let i = first_fit(left, needed);
        if 0 <= i < left.len() && resumable(before, candidates.last().program_id) {
            sorting_sorts(
                left.update(i, (left[i].0, left[i].1 - needed)).filter(has_room()),
                tighter_before(),
            );
        }
    }
}

/// Each program is placed where it fits best: when the turn of the candidate with number `n` comes,
/// no backend with room for it has less room left than the one that it goes to.
pub proof fn programs_go_where_they_fit_best(
    programs: Map<Seq<char>, ProgramView>,
    rooms: Seq<(int, int)>,
    candidates: Seq<CandidateView>,
    urls: Seq<Seq<char>>,
    n: int,
    j: int,
)
    requires
        0 <= n < candidates.len(),
        ({
            let sorted = stable_sorted(rooms, tighter_before());
            let left = placed(programs, sorted, candidates.take(n), urls).1;
            0 <= j < left.len() && left[j].1 >= room_for(candidates[n].total_tokens)
        }),
    ensures
        ({
            let sorted = stable_sorted(rooms, tighter_before());
            let (before, left) = placed(programs, sorted, candidates.take(n), urls);
            let needed = room_for(candidates[n].total_tokens);
            let i = first_fit(left, needed);
            &&& 0 <= i < left.len()
            &&& needed <= left[i].1 <= left[j].1
            &&& placed(programs, sorted, candidates.take(n + 1), urls).0 == with_resumed(
                before,
                candidates[n].program_id,
                urls[left[i].0],
            )
        }),
{
    let sorted = stable_sorted(rooms, tighter_before());
    let left = placed(programs, sorted, candidates.take(n), urls).1;
    sorting_sorts(rooms, tighter_before());
    rooms_stay_in_order(programs, sorted, candidates.take(n), urls);
    the_first_fit_is_the_best(left, room_for(candidates[n].total_tokens), j);
    assert(candidates.take(n + 1).drop_last() =~= candidates.take(n));
    assert(candidates.take(n + 1).last() == candidates[n]);
}

/// Of the programs that are chosen the larger ones are placed first.
pub proof fn larger_programs_are_placed_first(chosen: Seq<CandidateView>, i: int, j: int)
    requires
        0 <= i < j < chosen.len(),
    ensures
        stable_sorted(chosen, larger_before()).len() == chosen.len(),
        stable_sorted(chosen, larger_before())[i].total_tokens >= stable_sorted(
            chosen,
            larger_before(),
        )[j].total_tokens,
{
    sorting_keeps_the_number(chosen, larger_before());
    sorting_sorts(chosen, larger_before());
    let placed_first = stable_sorted(chosen, larger_before());
    assert(!larger_before()(placed_first[j], placed_first[i]));
}

/// The id of a placed candidate.
pub open spec fn placed_id() -> spec_fn((CandidateView, int)) -> Seq<char> {
    |placement: (CandidateView, int)| placement.0.program_id
}

proof fn the_placed_are_the_resumed(
    programs: Map<Seq<char>, ProgramView>,
    rooms: Seq<(int, int)>,
    candidates: Seq<CandidateView>,
    urls: Seq<Seq<char>>,
    id: Seq<char>,
)
    ensures
        distinct_by(placements(programs, rooms, candidates, urls), placed_id()),
        resumable(programs, id) && !resumable(placed(programs, rooms, candidates, urls).0, id)
            <==> exists|k: int|
            0 <= k < placements(programs, rooms, candidates, urls).len() && placed_id()(
                #[trigger] placements(programs, rooms, candidates, urls)[k],
            ) == id,
    decreases candidates.len(),
{
    if candidates.len() > 0 {
        let front = candidates.drop_last();
        let next = candidates.last();
        let (middle, left) = placed(programs, rooms, front, urls);
        let done = placements(programs, rooms, front, urls);
        let all = placements(programs, rooms, candidates, urls);
        let i = first_fit(left, room_for(next.total_tokens));
        the_placed_are_the_resumed(programs, rooms, front, urls, id);
        the_paused_are_untouched(programs, rooms, front, urls, next.program_id);
        the_paused_are_untouched(programs, rooms, front, urls, id);
        if 0 <= i < left.len() && resumable(middle, next.program_id) {
            assert(all == done.push((next, left[i].0)));
            assert forall|a: int, b: int| 0 <= a < b < all.len() implies placed_id()(
                #[trigger] all[a],
            ) != placed_id()(#[trigger] all[b]) by {
                assert(all[a] == done[a]);
                if b < done.len() {
                    assert(all[b] == done[b]);
                    assert(placed_id()(done[a]) != placed_id()(done[b]));
                } else {
                    the_placed_are_the_resumed(
                        programs,
                        rooms,
                        front,
                        urls,
                        placed_id()(done[a]),
                    );
                    assert(!resumable(middle, placed_id()(done[a])));
                }
            }
            if exists|k: int| 0 <= k < done.len() && placed_id()(#[trigger] done[k]) == id {
                let k = choose|k: int| 0 <= k < done.len() && placed_id()(#[trigger] done[k]) == id;
                assert(placed_id()(all[k]) == id);
            }
            if exists|k: int| 0 <= k < all.len() && placed_id()(#[trigger] all[k]) == id {
                let k = choose|k: int| 0 <= k < all.len() && placed_id()(#[trigger] all[k]) == id;
                if k < done.len() {
                    assert(placed_id()(done[k]) == id);
                }
            }
            assert(placed_id()(all[all.len() - 1]) == next.program_id);
        }
    }
}

proof fn handles_come_from_the_placed(
    programs: Map<Seq<char>, ProgramView>,
    placements: Seq<(CandidateView, int)>,
    handle: Arc<Notify>,
)
    ensures
        handles_of(programs, placements).contains(handle) <==> exists|k: int|
            0 <= k < placements.len() && programs[placed_id()(
                #[trigger] placements[k],
            )].waiting_notify == Some(handle),
    decreases placements.len(),
{
    if placements.len() > 0 {
        let front = placements.drop_last();
        let before = handles_of(programs, front);
        let all = handles_of(programs, placements);
        handles_come_from_the_placed(programs, front, handle);
        if all.contains(handle) {
            let h = choose|h: int| 0 <= h < all.len() && all[h] == handle;
            if h < before.len() {
                assert(before[h] == handle);
                let k = choose|k: int|
                    0 <= k < front.len() && programs[placed_id()(
                        #[trigger] front[k],
                    )].waiting_notify == Some(handle);
                assert(placements[k] == front[k]);
            } else {
                assert(programs[placed_id()(placements[placements.len() - 1])].waiting_notify
                    == Some(handle));
            }
        }
        if exists|k: int|
            0 <= k < placements.len() && programs[placed_id()(
                #[trigger] placements[k],
            )].waiting_notify == Some(handle) {
            let k = choose|k: int|
                0 <= k < placements.len() && programs[placed_id()(
                    #[trigger] placements[k],
                )].waiting_notify == Some(handle);
            if k < front.len() {
                assert(front[k] == placements[k]);
                let h = choose|h: int| 0 <= h < before.len() && before[h] == handle;
                assert(all[h] == handle);
            } else {
                assert(all[all.len() - 1] == handle);
            }
        }
    }
}

/// The handles that a pass hands back, to be woken, are those of exactly the programs that it
/// resumed: a handle is among them if and only if the requests of a program that was paused, and is
/// not any more, wait on it.
pub proof fn the_handles_are_those_of_the_resumed(
    scheduler: SchedulerView,
    programs: Map<Seq<char>, ProgramView>,
    used: Seq<u64>,
    after: Map<Seq<char>, ProgramView>,
    handles: Seq<Arc<Notify>>,
    handle: Arc<Notify>,
)
    requires
        scheduler.greedily_released(programs, used, after, handles),
    ensures
        handles.contains(handle) <==> exists|id: Seq<char>| #[trigger]
            resumable(programs, id) && !resumable(after, id) && programs[id].waiting_notify == Some(
                handle,
            ),
{
    let rooms = scheduler.rooms(programs, used, scheduler.backends.len() as int);
    let urls = scheduler.urls();
    let entries = choose|entries: Seq<(String, Program)>|
        #[trigger] scheduler.resumed_in_order(programs, used, entries, after) && handles
            == handles_of(
            programs,
            resumption_placements(programs, rooms, candidates_of(entries), urls),
        );
    let done = resumption_placements(programs, rooms, candidates_of(entries), urls);
    let chosen = admitted(
        stable_sorted(candidates_of(entries), ranked_before()),
        total_room(rooms),
    ).0;
    let sorted = stable_sorted(rooms, tighter_before());
    let largest = stable_sorted(chosen, larger_before());
    handles_come_from_the_placed(programs, done, handle);
    if handles.contains(handle) {
        let k = choose|k: int|
            0 <= k < done.len() && programs[placed_id()(
                #[trigger] done[k],
            )].waiting_notify == Some(handle);
        the_placed_are_the_resumed(programs, sorted, largest, urls, placed_id()(done[k]));
        assert(resumable(programs, placed_id()(done[k])));
    }
    if exists|id: Seq<char>| #[trigger]
        resumable(programs, id) && !resumable(after, id) && programs[id].waiting_notify == Some(
            handle,
        ) {
        let id = choose|id: Seq<char>| #[trigger]
            resumable(programs, id) && !resumable(after, id) && programs[id].waiting_notify
                == Some(handle);
        the_placed_are_the_resumed(programs, sorted, largest, urls, id);
        let k = choose|k: int| 0 <= k < done.len() && placed_id()(#[trigger] done[k]) == id;
        assert(programs[placed_id()(done[k])].waiting_notify == Some(handle));
    }
}

/// No program is resumed twice in one pass, so none has its handle handed back twice.
pub proof fn a_pass_resumes_each_program_once(
    programs: Map<Seq<char>, ProgramView>,
    rooms: Seq<(int, int)>,
    candidates: Seq<CandidateView>,
    urls: Seq<Seq<char>>,
)
    ensures
        distinct_by(
            resumption_placements(programs, rooms, candidates, urls),
            placed_id(),
        ),
{
    let chosen = admitted(stable_sorted(candidates, ranked_before()), total_room(rooms)).0;
    the_placed_are_the_resumed(
        programs,
        stable_sorted(rooms, tighter_before()),
        stable_sorted(chosen, larger_before()),
        urls,
        Seq::empty(),
    );
}

/// The id of a candidate.
pub open spec fn candidate_id() -> spec_fn(CandidateView) -> Seq<char> {
    |candidate: CandidateView| candidate.program_id
}

/// No program is a candidate twice.
pub proof fn candidates_are_distinct(entries: Seq<(String, Program)>)
    requires
        forall|i: int, j: int|
            0 <= i < j < entries.len() ==> (#[trigger] entries[i]).0@ != (#[trigger] entries[j]).0@,
    ensures
        distinct_by(candidates_of(entries), candidate_id()),
    decreases entries.len(),
{
    if entries.len() > 0 {
        let front = entries.drop_last();
        let before = candidates_of(front);
        let all = candidates_of(entries);
        candidates_are_distinct(front);
        assert forall|i: int, j: int| 0 <= i < j < all.len() implies candidate_id()(
            #[trigger] all[i],
        ) != candidate_id()(#[trigger] all[j]) by {
            assert(all[i] == before[i]);
            if j < before.len() {
                assert(candidate_id()(before[i]) != candidate_id()(before[j]));
            } else {
                candidates_come_from_entries(front, before[i]);
                assert(before.contains(before[i]));
                let m = choose|m: int|
                    0 <= m < front.len() && made_from(before[i], #[trigger] front[m]);
                assert(entries[m].0@ != entries[entries.len() - 1].0@);
            }
        }
    }
}


/// A program needs room for its tokens and 100 more. A sum that exceeds 64 bits is cut to the
/// largest number, and one that exceeds a signed integer reads as a negative one.
pub proof fn a_program_needs_its_tokens_and_a_buffer(total_tokens: u64)
    ensures
        total_tokens + 100 <= i64::MAX ==> room_for(total_tokens) == total_tokens + 100,
        i64::MAX < total_tokens + 100 <= u64::MAX ==> room_for(total_tokens) == total_tokens + 100
            - 0x1_0000_0000_0000_0000,
        total_tokens + 100 > u64::MAX ==> room_for(total_tokens) == -1,
{
}

/// A program can be resumed if and only if it is there and paused; resuming one that cannot be
/// changes nothing.
pub proof fn only_a_paused_program_is_resumed(
    programs: Map<Seq<char>, ProgramView>,
    id: Seq<char>,
    url: Seq<char>,
)
    ensures
        resumable(programs, id) <==> programs.contains_key(id) && programs[id].state
            == ProgramState::Paused,
        !(programs.contains_key(id) && programs[id].state == ProgramState::Paused) ==> with_resumed(
            programs,
            id,
            url,
        ) == programs,
{
}

/// Programs in the middle of their reasoning are considered before new ones, and new ones before
/// acting ones, whatever their step counts: new are those with a step count of one. Of programs that
/// are alike in this, the one with fewer tokens is considered first. So of two candidates the later
/// one never has the better claim.
pub proof fn reasoning_then_new_then_acting(
    entries: Seq<(String, Program)>,
    programs: Map<Seq<char>, ProgramView>,
    i: int,
    j: int,
)
    requires
        lists(entries, programs),
        0 <= i < j < stable_sorted(candidates_of(entries), ranked_before()).len(),
    ensures
        ({
            let ranked = stable_sorted(candidates_of(entries), ranked_before());
            let a = programs[ranked[i].program_id];
            let b = programs[ranked[j].program_id];
            &&& b.step_count != 1 && b.status == ProgramStatus::Reasoning ==> a.step_count != 1
                && a.status == ProgramStatus::Reasoning
            &&& b.step_count == 1 ==> a.step_count == 1 || a.status == ProgramStatus::Reasoning
            &&& a.step_count == 1 && b.step_count == 1 ==> a.total_tokens <= b.total_tokens
            &&& a.step_count != 1 && b.step_count != 1 && a.status == b.status ==> a.total_tokens
                <= b.total_tokens
        }),
{
    let candidates = candidates_of(entries);
    let ranked = stable_sorted(candidates, ranked_before());
    sorting_keeps_the_number(candidates, ranked_before());
    candidates_are_ranked(candidates, i, j);
    assert(ranked.contains(ranked[i]) && ranked.contains(ranked[j]));
    sorting_keeps_each_item(candidates, ranked_before(), ranked[i]);
    sorting_keeps_each_item(candidates, ranked_before(), ranked[j]);
    paused_programs_are_considered(entries, programs, ranked[i]);
    paused_programs_are_considered(entries, programs, ranked[j]);
}

/// Every paused program is a candidate once, with the tokens that it holds, and no other program is
/// one; so there are as many candidates with an id as there are paused programs under it.
pub proof fn each_paused_program_is_a_candidate(
    entries: Seq<(String, Program)>,
    programs: Map<Seq<char>, ProgramView>,
    id: Seq<char>,
)
    requires
        lists(entries, programs),
    ensures
        programs.contains_key(id) && programs[id].state == ProgramState::Paused <==> exists|k: int|
            0 <= k < candidates_of(entries).len() && (#[trigger] candidates_of(
                entries,
            )[k]).program_id == id,
        forall|k: int|
            0 <= k < candidates_of(entries).len() && (#[trigger] candidates_of(
                entries,
            )[k]).program_id == id ==> candidates_of(entries)[k].total_tokens
                == programs[id].total_tokens,
        distinct_by(candidates_of(entries), candidate_id()),
{
    let all = candidates_of(entries);
    candidates_are_distinct(entries);
    assert forall|k: int| 0 <= k < all.len() && (#[trigger] all[k]).program_id == id implies
        all[k].total_tokens == programs[id].total_tokens && resumable(programs, id) by {
        assert(all.contains(all[k]));
        paused_programs_are_considered(entries, programs, all[k]);
    }
    if resumable(programs, id) {
        let one = CandidateView {
            program_id: id,
            total_tokens: programs[id].total_tokens,
            priority: priority_of(programs[id]),
        };
        paused_programs_are_considered(entries, programs, one);
        let k = choose|k: int| 0 <= k < all.len() && all[k] == one;
        assert(all[k].program_id == id);
    }
}

/// A candidate is chosen if and only if the room is enough for it and all that were chosen before
/// it together.
pub proof fn a_candidate_is_chosen_if_it_still_fits(
    candidates: Seq<CandidateView>,
    next: CandidateView,
    room: int,
)
    ensures
        admitted(Seq::empty(), room) == (Seq::<CandidateView>::empty(), 0int),
        ({
            let (taken, sum) = admitted(candidates, room);
            let needed = room_for(next.total_tokens);
            &&& sum + needed <= room ==> admitted(candidates.push(next), room) == (
                taken.push(next),
                sum + needed,
            )
            &&& sum + needed > room ==> admitted(candidates.push(next), room) == (taken, sum)
        }),
{
    assert(candidates.push(next).drop_last() =~= candidates);
}

/// All room together is the sum of the rooms.
pub proof fn all_room_is_a_sum(rooms: Seq<(int, int)>, next: (int, int))
    ensures
        total_room(Seq::empty()) == 0,
        total_room(rooms.push(next)) == total_room(rooms) + next.1,
{
    assert(rooms.push(next).drop_last() =~= rooms);
}

/// Where no room fits none is found; and what is found fits.
pub proof fn only_a_fit_is_found(rooms: Seq<(int, int)>, needed: int)
    ensures
        (forall|i: int| 0 <= i < rooms.len() ==> (#[trigger] rooms[i]).1 < needed) <==> first_fit(
            rooms,
            needed,
        ) == rooms.len(),
        0 <= first_fit(rooms, needed) <= rooms.len(),
        first_fit(rooms, needed) < rooms.len() ==> rooms[first_fit(rooms, needed)].1 >= needed,
        forall|i: int| 0 <= i < first_fit(rooms, needed) ==> (#[trigger] rooms[i]).1 < needed,
{
    a_fit_is_a_fit(rooms, needed);
}

/// When room is taken from a backend, that backend has as much less, every other has what it had,
/// and exactly those with less than 100 drop out. Those that stay stand in the order of their room,
/// the least first.
pub proof fn room_is_taken_from_one_backend(rooms: Seq<(int, int)>, i: int, needed: int)
    requires
        distinct_by(rooms, backend_number()),
        0 <= i < rooms.len(),
    ensures
        ({
            let after = rooms_after(rooms, i, needed);
            &&& distinct_by(after, backend_number())
            &&& forall|a: int, b: int|
                0 <= a < b < after.len() ==> (#[trigger] after[a]).1 <= (#[trigger] after[b]).1
            &&& after.contains((rooms[i].0, rooms[i].1 - needed)) <==> rooms[i].1 - needed >= 100
            &&& forall|k: int|
                0 <= k < rooms.len() && k != i ==> (after.contains(#[trigger] rooms[k])
                    <==> rooms[k].1 >= 100)
            &&& forall|room: (int, int)| #[trigger]
                after.contains(room) ==> room == (rooms[i].0, rooms[i].1 - needed) || exists|k: int|
                    0 <= k < rooms.len() && k != i && room == #[trigger] rooms[k]
        }),
{
    let updated = rooms.update(i, (rooms[i].0, rooms[i].1 - needed));
    let kept = updated.filter(has_room());
    let after = rooms_after(rooms, i, needed);
    assert forall|a: int, b: int| 0 <= a < b < updated.len() implies backend_number()(
        #[trigger] updated[a],
    ) != backend_number()(#[trigger] updated[b]) by {
        assert(backend_number()(rooms[a]) != backend_number()(rooms[b]));
    }
    filtering_keeps_keys_distinct(updated, has_room(), backend_number());
    sorting_keeps_keys_distinct(kept, tighter_before(), backend_number());
    sorting_sorts(kept, tighter_before());
    assert forall|a: int, b: int| 0 <= a < b < after.len() implies (#[trigger] after[a]).1 <= (
    #[trigger] after[b]).1 by {
        assert(!tighter_before()(after[b], after[a]));
    }
    assert(updated[i] == (rooms[i].0, rooms[i].1 - needed));
    assert(updated.contains(updated[i]));
    sorting_keeps_each_item(kept, tighter_before(), updated[i]);
    assert(kept.contains(updated[i]) <==> updated.contains(updated[i]) && has_room()(updated[i]));
    assert forall|k: int| 0 <= k < rooms.len() && k != i implies (after.contains(
        #[trigger] rooms[k],
    ) <==> rooms[k].1 >= 100) by {
        assert(updated[k] == rooms[k]);
        assert(updated.contains(rooms[k]));
        sorting_keeps_each_item(kept, tighter_before(), rooms[k]);
        assert(kept.contains(rooms[k]) <==> updated.contains(rooms[k]) && has_room()(rooms[k]));
    }
    assert forall|room: (int, int)| #[trigger] after.contains(room) implies room == (
        rooms[i].0,
        rooms[i].1 - needed,
    ) || exists|k: int| 0 <= k < rooms.len() && k != i && room == #[trigger] rooms[k] by {
        sorting_keeps_each_item(kept, tighter_before(), room);
        assert(kept.contains(room) <==> updated.contains(room) && has_room()(room));
        let k = choose|k: int| 0 <= k < updated.len() && updated[k] == room;
        if k != i {
            assert(room == rooms[k]);
        }
    }
}

/// Candidates are placed in turn: one that is paused and fits goes to the first backend with room
/// for it, which then has as much less, and any other changes nothing.
pub proof fn candidates_are_placed_in_turn(
    programs: Map<Seq<char>, ProgramView>,
    rooms: Seq<(int, int)>,
    candidates: Seq<CandidateView>,
    next: CandidateView,
    urls: Seq<Seq<char>>,
)
    ensures
        placed(programs, rooms, Seq::empty(), urls) == (programs, rooms),
        ({
            let (before, left) = placed(programs, rooms, candidates, urls);
            let after = placed(programs, rooms, candidates.push(next), urls);
            let needed = room_for(next.total_tokens);
            let i = first_fit(left, needed);
            &&& (forall|k: int| 0 <= k < left.len() ==> (#[trigger] left[k]).1 < needed) ==> after
                == (before, left)
            &&& !resumable(before, next.program_id) ==> after == (before, left)
            &&& resumable(before, next.program_id) && i < left.len() ==> after.0 == before.insert(
                next.program_id,
                before[next.program_id].resumed(urls[left[i].0]),
            ) && after.1 == rooms_after(left, i, needed)
        }),
{
    assert(candidates.push(next).drop_last() =~= candidates);
    let left = placed(programs, rooms, candidates, urls).1;
    a_fit_is_a_fit(left, room_for(next.total_tokens));
}

/// `ranked` are the candidates by rank, and within a rank by tokens, fewer first; `placing` are
/// those of them that fit all room together, larger ones first; and `sorted` are the rooms, those
/// with the least first.
pub open spec fn in_their_orders(
    candidates: Seq<CandidateView>,
    rooms: Seq<(int, int)>,
    ranked: Seq<CandidateView>,
    placing: Seq<CandidateView>,
    sorted: Seq<(int, int)>,
) -> bool {
    &&& ranked.to_multiset() == candidates.to_multiset()
    &&& forall|i: int, j: int|
        0 <= i < j < ranked.len() ==> (#[trigger] ranked[i]).priority <= (
        #[trigger] ranked[j]).priority
    &&& forall|i: int, j: int|
        0 <= i < j < ranked.len() && (#[trigger] ranked[i]).priority == (
        #[trigger] ranked[j]).priority ==> ranked[i].total_tokens <= ranked[j].total_tokens
    &&& placing.to_multiset() == admitted(ranked, total_room(rooms)).0.to_multiset()
    &&& forall|i: int, j: int|
        0 <= i < j < placing.len() ==> (#[trigger] placing[i]).total_tokens >= (
        #[trigger] placing[j]).total_tokens
    &&& sorted.to_multiset() == rooms.to_multiset()
    &&& forall|i: int, j: int|
        0 <= i < j < sorted.len() ==> (#[trigger] sorted[i]).1 <= (#[trigger] sorted[j]).1
}

/// Resuming goes by rank, then by size, then by fit: candidates are chosen by rank as far as all
/// room goes, and those chosen are placed, the larger ones first, each where it fits best. Without
/// room nothing changes.
pub proof fn resuming_goes_by_rank_then_size_then_fit(
    programs: Map<Seq<char>, ProgramView>,
    rooms: Seq<(int, int)>,
    candidates: Seq<CandidateView>,
    urls: Seq<Seq<char>>,
)
    ensures
        total_room(rooms) <= 0 ==> resumption(programs, rooms, candidates, urls) == programs,
        total_room(rooms) > 0 ==> exists|
            ranked: Seq<CandidateView>,
            placing: Seq<CandidateView>,
            sorted: Seq<(int, int)>,
        | #[trigger]
            in_their_orders(candidates, rooms, ranked, placing, sorted) && resumption(
                programs,
                rooms,
                candidates,
                urls,
            ) == placed(programs, sorted, placing, urls).0,
{
    let ranked = stable_sorted(candidates, ranked_before());
    let chosen = admitted(ranked, total_room(rooms)).0;
    let placing = stable_sorted(chosen, larger_before());
    let sorted = stable_sorted(rooms, tighter_before());
    sorting_keeps_the_items(candidates, ranked_before());
    sorting_keeps_the_items(chosen, larger_before());
    sorting_keeps_the_items(rooms, tighter_before());
    sorting_keeps_the_number(candidates, ranked_before());
    sorting_keeps_the_number(chosen, larger_before());
    sorting_sorts(rooms, tighter_before());
    assert forall|i: int, j: int| 0 <= i < j < ranked.len() implies (#[trigger] ranked[i]).priority
        <= (#[trigger] ranked[j]).priority && (ranked[i].priority == ranked[j].priority
        ==> ranked[i].total_tokens <= ranked[j].total_tokens) by {
        candidates_are_ranked(candidates, i, j);
    }
    assert forall|i: int, j: int| 0 <= i < j < placing.len() implies (
    #[trigger] placing[i]).total_tokens >= (#[trigger] placing[j]).total_tokens by {
        larger_programs_are_placed_first(chosen, i, j);
    }
    assert forall|i: int, j: int| 0 <= i < j < sorted.len() implies (#[trigger] sorted[i]).1 <= (
    #[trigger] sorted[j]).1 by {
        assert(!tighter_before()(sorted[j], sorted[i]));
    }
    assert(in_their_orders(candidates, rooms, ranked, placing, sorted));
}

/// A pass considers all programs and all backends: it is a resumption of the paused programs that
/// some walk over all programs comes by, on the backends with room, by their own addresses.
pub proof fn a_pass_considers_everything(
    scheduler: SchedulerView,
    programs: Map<Seq<char>, ProgramView>,
    used: Seq<u64>,
    after: Map<Seq<char>, ProgramView>,
)
    ensures
        scheduler.greedily_resumed(programs, used, after) <==> exists|
            entries: Seq<(String, Program)>,
        |
            lists(entries, programs) && after == #[trigger] resumption(
                programs,
                scheduler.rooms(programs, used, scheduler.backends.len() as int),
                candidates_of(entries),
                scheduler.urls(),
            ),
        scheduler.urls().len() == scheduler.backends.len(),
        forall|i: int|
            0 <= i < scheduler.backends.len() ==> #[trigger] scheduler.urls()[i]
                == scheduler.backends[i].url,
        scheduler.rooms_fit(programs, used) <==> forall|i: int|
            0 <= i < scheduler.backends.len() && (#[trigger] scheduler.backends[i]).metrics.healthy
                ==> scheduler.backends[i].remaining_fits(programs, used[i]),
{
    if exists|entries: Seq<(String, Program)>|
        lists(entries, programs) && after == #[trigger] resumption(
            programs,
            scheduler.rooms(programs, used, scheduler.backends.len() as int),
            candidates_of(entries),
            scheduler.urls(),
        ) {
        let entries = choose|entries: Seq<(String, Program)>|
            lists(entries, programs) && after == #[trigger] resumption(
                programs,
                scheduler.rooms(programs, used, scheduler.backends.len() as int),
                candidates_of(entries),
                scheduler.urls(),
            );
        assert(scheduler.resumed_in_order(programs, used, entries, after));
    }
    if scheduler.greedily_resumed(programs, used, after) {
        let entries = choose|entries: Seq<(String, Program)>| #[trigger]
            scheduler.resumed_in_order(programs, used, entries, after);
        assert(lists(entries, programs));
    }
}

/// The values of candidates and rooms are made of their fields, in their order.
pub proof fn candidates_and_rooms_are_their_fields(
    candidates: Seq<ResumeCandidate>,
    rooms: Seq<(usize, i64)>,
    i: int,
    k: int,
)
    requires
        0 <= i < candidates.len(),
        0 <= k < rooms.len(),
    ensures
        candidates_view(candidates).len() == candidates.len(),
        candidates_view(candidates)[i].program_id == candidates[i].program_id@,
        candidates_view(candidates)[i].total_tokens == candidates[i].total_tokens,
        candidates_view(candidates)[i].priority == candidates[i].priority,
        rooms_view(rooms).len() == rooms.len(),
        rooms_view(rooms)[k] == (rooms[k].0 as int, rooms[k].1 as int),
{
}

} // verus!
