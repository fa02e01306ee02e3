//! What a pass of the scheduler comes to where there is one backend and all tokens count in full:
//! nothing that fits the room left is passed over.

use crate::backend::{one_on, program_count, program_tokens, tokens_on, BUFFER_PER_PROGRAM};
use crate::numbers::as_signed;
use crate::order::{
    distinct_by, place_is_inside, place_of, sorting_keeps_each_item, sorting_keeps_keys_distinct,
    sorting_keeps_the_number, sorting_sorts, stable_sorted,
};
use crate::program::{Program, ProgramState, ProgramStatus, ProgramView};
use crate::registry::{a_sum_is_not_negative, a_walk_sums_up, lists, one_program_more};
use crate::scheduler::{
    admitted, candidate_id, candidates_are_distinct, candidates_of, first_fit, has_room,
    larger_before, later_candidates_take_nothing, paused_programs_are_considered, placed,
    priority_of, ranked_before, resumable, room_for, rooms_after, the_chosen_fit, tighter_before,
    total_room, CandidateView, SchedulerView,
};
use vstd::prelude::*;

verus! {

/// The tokens of all programs on the backend at `url`, reasoning and acting.
pub open spec fn load_on(programs: Map<Seq<char>, ProgramView>, url: Seq<char>) -> int {
    program_tokens(programs, url, ProgramStatus::Reasoning) + program_tokens(
        programs,
        url,
        ProgramStatus::Acting,
    )
}

/// There is one backend, it is healthy and its cache is known, all tokens on it count in full, no
/// paused program is bound to a backend, and no amount exceeds a signed 64-bit integer.
pub open spec fn stands_alone(
    scheduler: SchedulerView,
    programs: Map<Seq<char>, ProgramView>,
    used: Seq<u64>,
) -> bool {
    let backend = scheduler.backends[0];
    &&& scheduler.backends.len() == 1
    &&& backend.metrics.healthy
    &&& backend.metrics.cache_config is Some
    &&& used.len() == 1
    &&& used[0] == load_on(programs, backend.url)
    &&& load_on(programs, backend.url) <= i64::MAX
    &&& program_count(programs, backend.url) * BUFFER_PER_PROGRAM <= i64::MAX
    &&& scheduler.rooms_fit(programs, used)
    &&& forall|id: Seq<char>| #[trigger]
        resumable(programs, id) ==> programs[id].backend_url is None && programs[id].total_tokens
            + BUFFER_PER_PROGRAM <= i64::MAX
}

/// The room that candidates need together.
pub open spec fn needs(candidates: Seq<CandidateView>) -> int
    decreases candidates.len(),
{
    if candidates.len() == 0 {
        0
    } else {
        needs(candidates.drop_last()) + room_for(candidates.last().total_tokens)
    }
}

proof fn needs_with_one_more(candidates: Seq<CandidateView>, p: int, x: CandidateView)
    requires
        0 <= p <= candidates.len(),
    ensures
        needs(candidates.insert(p, x)) == needs(candidates) + room_for(x.total_tokens),
    decreases candidates.len(),
{
    let all = candidates.insert(p, x);
    if p == candidates.len() {
        assert(all.drop_last() =~= candidates);
    } else {
        needs_with_one_more(candidates.drop_last(), p, x);
        assert(all.drop_last() =~= candidates.drop_last().insert(p, x));
    }
}

proof fn sorting_keeps_needs(
    candidates: Seq<CandidateView>,
    before: spec_fn(CandidateView, CandidateView) -> bool,
)
    ensures
        needs(stable_sorted(candidates, before)) == needs(candidates),
    decreases candidates.len(),
{
    if candidates.len() > 0 {
        let front = stable_sorted(candidates.drop_last(), before);
        sorting_keeps_needs(candidates.drop_last(), before);
        place_is_inside(front, candidates.last(), before);
        needs_with_one_more(front, place_of(front, candidates.last(), before), candidates.last());
    }
}

/// Every candidate stands for a paused program that is bound to no backend, and needs its tokens and
/// a buffer.
spec fn stand_for_paused(
    candidates: Seq<CandidateView>,
    programs: Map<Seq<char>, ProgramView>,
) -> bool {
    &&& distinct_by(candidates, candidate_id())
    &&& forall|k: int|
        0 <= k < candidates.len() ==> stands_for_paused(#[trigger] candidates[k], programs)
}

spec fn stands_for_paused(
    candidate: CandidateView,
    programs: Map<Seq<char>, ProgramView>,
) -> bool {
    &&& resumable(programs, candidate.program_id)
    &&& programs[candidate.program_id].backend_url is None
    &&& programs[candidate.program_id].total_tokens == candidate.total_tokens
    &&& candidate.total_tokens + BUFFER_PER_PROGRAM <= i64::MAX
}

proof fn the_chosen_are_some(candidates: Seq<CandidateView>, room: int)
    ensures
        needs(admitted(candidates, room).0) == admitted(candidates, room).1,
        forall|x: CandidateView| #[trigger]
            admitted(candidates, room).0.contains(x) ==> candidates.contains(x),
        distinct_by(candidates, candidate_id()) ==> distinct_by(
            admitted(candidates, room).0,
            candidate_id(),
        ),
    decreases candidates.len(),
{
    if candidates.len() > 0 {
        let front = candidates.drop_last();
        let next = candidates.last();
        the_chosen_are_some(front, room);
        let (taken, sum) = admitted(front, room);
        let all = admitted(candidates, room).0;
        if all != taken {
            assert(all == taken.push(next));
            assert(all.drop_last() =~= taken);
        }
        assert forall|x: CandidateView| #[trigger] all.contains(x) implies candidates.contains(
            x,
        ) by {
            let k = choose|k: int| 0 <= k < all.len() && all[k] == x;
            if k < taken.len() {
                assert(taken[k] == x);
                assert(taken.contains(x));
                let m = choose|m: int| 0 <= m < front.len() && front[m] == x;
                assert(candidates[m] == x);
            } else {
                assert(candidates[candidates.len() - 1] == x);
            }
        }
        if distinct_by(candidates, candidate_id()) {
            assert(distinct_by(front, candidate_id())) by {
                assert forall|i: int, j: int| 0 <= i < j < front.len() implies candidate_id()(
                    #[trigger] front[i],
                ) != candidate_id()(#[trigger] front[j]) by {
                    assert(candidate_id()(candidates[i]) != candidate_id()(candidates[j]));
                }
            }
            assert forall|i: int, j: int| 0 <= i < j < all.len() implies candidate_id()(
                #[trigger] all[i],
            ) != candidate_id()(#[trigger] all[j]) by {
                assert(all[i] == taken[i]);
                if j < taken.len() {
                    assert(all[j] == taken[j]);
                    assert(candidate_id()(taken[i]) != candidate_id()(taken[j]));
                } else {
                    assert(taken.contains(taken[i]));
                    let m = choose|m: int| 0 <= m < front.len() && front[m] == taken[i];
                    assert(candidate_id()(candidates[m]) != candidate_id()(
                        candidates[candidates.len() - 1],
                    ));
                }
            }
        }
    }
}

proof fn those_left_out_do_not_fit(candidates: Seq<CandidateView>, room: int, x: CandidateView)
    requires
        forall|k: int|
            0 <= k < candidates.len() ==> 0 <= room_for((#[trigger] candidates[k]).total_tokens),
        candidates.contains(x),
        !admitted(candidates, room).0.contains(x),
    ensures
        admitted(candidates, room).1 + room_for(x.total_tokens) > room,
    decreases candidates.len(),
{
    let front = candidates.drop_last();
    let next = candidates.last();
    let (taken, sum) = admitted(front, room);
    let all = admitted(candidates, room).0;
    assert(room_for(candidates[candidates.len() - 1].total_tokens) >= 0);
    let m = choose|m: int| 0 <= m < candidates.len() && candidates[m] == x;
    if sum + room_for(next.total_tokens) <= room {
        assert(all[all.len() - 1] == next);
    }
    if m < front.len() {
        assert(front[m] == x);
        if taken.contains(x) {
            let k = choose|k: int| 0 <= k < taken.len() && taken[k] == x;
            assert(all[k] == x);
        }
        assert forall|k: int| 0 <= k < front.len() implies 0 <= room_for(
            (#[trigger] front[k]).total_tokens,
        ) by {
            assert(candidates[k] == front[k]);
        }
        those_left_out_do_not_fit(front, room, x);
    }
}

proof fn none_is_chosen(candidates: Seq<CandidateView>, room: int)
    requires
        forall|k: int|
            0 <= k < candidates.len() ==> room_for((#[trigger] candidates[k]).total_tokens) > room,
    ensures
        admitted(candidates, room) == (Seq::<CandidateView>::empty(), 0int),
    decreases candidates.len(),
{
    if candidates.len() > 0 {
        let front = candidates.drop_last();
        assert forall|k: int| 0 <= k < front.len() implies room_for(
            (#[trigger] front[k]).total_tokens,
        ) > room by {
            assert(candidates[k] == front[k]);
        }
        none_is_chosen(front, room);
        assert(room_for(candidates[candidates.len() - 1].total_tokens) > room);
    }
}

/// The rooms where one backend has room left: that room, if it is room for a buffer.
spec fn one_room(room: int) -> Seq<(int, int)> {
    if room >= BUFFER_PER_PROGRAM {
        seq![(0int, room)]
    } else {
        Seq::empty()
    }
}

proof fn one_room_less(room: int, needed: int)
    ensures
        rooms_after(seq![(0int, room)], 0, needed) =~= one_room(room - needed),
        stable_sorted(one_room(room), tighter_before()) =~= one_room(room),
        total_room(one_room(room)) == if room >= BUFFER_PER_PROGRAM {
            room
        } else {
            0
        },
{
    reveal(Seq::filter);
    reveal_with_fuel(stable_sorted, 3);
    reveal_with_fuel(Seq::filter, 3);
    reveal_with_fuel(total_room, 3);
    reveal_with_fuel(place_of, 2);
    let updated = seq![(0int, room)].update(0, (0int, room - needed));
    assert(updated =~= seq![(0int, room - needed)]);
    assert(updated.drop_last() =~= Seq::empty());
    assert(seq![(0int, room)].drop_last() =~= Seq::empty());
    assert(seq![(0int, room - needed)].drop_last() =~= Seq::empty());
    let none = Seq::<(int, int)>::empty();
    assert(none.filter(has_room()) =~= none);
    assert(updated.filter(has_room()) =~= one_room(room - needed));
    assert(none.insert(0, (0int, room)) =~= seq![(0int, room)]);
    assert(none.insert(0, (0int, room - needed)) =~= seq![(0int, room - needed)]);
}

proof fn one_room_takes_all(
    programs: Map<Seq<char>, ProgramView>,
    room: int,
    candidates: Seq<CandidateView>,
    urls: Seq<Seq<char>>,
)
    requires
        programs.dom().finite(),
        stand_for_paused(candidates, programs),
        needs(candidates) <= room,
        room >= BUFFER_PER_PROGRAM,
    ensures
        ({
            let (after, left) = placed(programs, one_room(room), candidates, urls);
            &&& left == one_room(room - needs(candidates))
            &&& after.dom() == programs.dom()
            &&& forall|k: int|
                0 <= k < candidates.len() ==> !resumable(
                    after,
                    (#[trigger] candidates[k]).program_id,
                )
            &&& forall|id: Seq<char>|
                resumable(programs, id) && (forall|k: int|
                    0 <= k < candidates.len() ==> (#[trigger] candidates[k]).program_id != id)
                    ==> #[trigger] after[id] == programs[id]
            &&& forall|id: Seq<char>| #[trigger]
                resumable(after, id) ==> resumable(programs, id) && after[id] == programs[id]
            &&& program_count(after, urls[0]) == program_count(programs, urls[0])
                + candidates.len()
            &&& load_on(after, urls[0]) == load_on(programs, urls[0]) + needs(candidates)
                - BUFFER_PER_PROGRAM * candidates.len()
        }),
    decreases candidates.len(),
{
    if candidates.len() > 0 {
        let front = candidates.drop_last();
        let next = candidates.last();
        let needed = room_for(next.total_tokens);
        assert(stands_for_paused(candidates[candidates.len() - 1], programs));
        assert(stand_for_paused(front, programs)) by {
            assert forall|k: int| 0 <= k < front.len() implies stands_for_paused(
                #[trigger] front[k],
                programs,
            ) by {
                assert(stands_for_paused(candidates[k], programs));
            }
            assert forall|i: int, j: int| 0 <= i < j < front.len() implies candidate_id()(
                #[trigger] front[i],
            ) != candidate_id()(#[trigger] front[j]) by {
                assert(candidate_id()(candidates[i]) != candidate_id()(candidates[j]));
            }
        }
        one_room_takes_all(programs, room, front, urls);
        let (middle, left) = placed(programs, one_room(room), front, urls);
        let (after, rest) = placed(programs, one_room(room), candidates, urls);
        assert(left =~= seq![(0int, room - needs(front))]);
        assert(first_fit(left, needed) == 0);
        assert forall|k: int| 0 <= k < front.len() implies (#[trigger] front[k]).program_id
            != next.program_id by {
            assert(candidate_id()(candidates[k]) != candidate_id()(
                candidates[candidates.len() - 1],
            ));
        }
        assert(middle[next.program_id] == programs[next.program_id]);
        assert(middle.contains_key(next.program_id));
        one_room_less(room - needs(front), needed);
        let resumed = middle[next.program_id].resumed(urls[0]);
        assert(after == middle.insert(next.program_id, resumed));
        one_program_more(middle, one_on(urls[0]), next.program_id, resumed);
        one_program_more(
            middle,
            tokens_on(urls[0], ProgramStatus::Reasoning),
            next.program_id,
            resumed,
        );
        one_program_more(
            middle,
            tokens_on(urls[0], ProgramStatus::Acting),
            next.program_id,
            resumed,
        );
        assert(after.dom() =~= programs.dom());
        assert forall|k: int| 0 <= k < candidates.len() implies !resumable(
            after,
            (#[trigger] candidates[k]).program_id,
        ) by {
            if k < front.len() {
                assert(candidates[k] == front[k]);
            }
        }
        assert forall|id: Seq<char>|
            resumable(programs, id) && (forall|k: int|
                0 <= k < candidates.len() ==> (#[trigger] candidates[k]).program_id
                    != id) implies #[trigger] after[id] == programs[id] by {
            assert(candidates[candidates.len() - 1].program_id != id);
            assert forall|k: int| 0 <= k < front.len() implies (#[trigger] front[k]).program_id
                != id by {
                assert(candidates[k] == front[k]);
            }
            assert(middle[id] == programs[id]);
        }
        assert forall|id: Seq<char>| #[trigger] resumable(after, id) implies resumable(
            programs,
            id,
        ) && after[id] == programs[id] by {
            assert(id != next.program_id);
            assert(resumable(middle, id));
        }
    }
}

/// The room left on the one backend.
spec fn room_now(
    scheduler: SchedulerView,
    programs: Map<Seq<char>, ProgramView>,
    used: Seq<u64>,
) -> int {
    scheduler.backends[0].remaining(programs, used[0])->0 as int
}

proof fn the_one_room(
    scheduler: SchedulerView,
    programs: Map<Seq<char>, ProgramView>,
    used: Seq<u64>,
)
    requires
        stands_alone(scheduler, programs, used),
    ensures
        scheduler.rooms(programs, used, 1) == one_room(room_now(scheduler, programs, used)),
        scheduler.urls()[0] == scheduler.backends[0].url,
        0 <= program_count(programs, scheduler.backends[0].url),
        0 <= load_on(programs, scheduler.backends[0].url),
        room_now(scheduler, programs, used) == as_signed(
            scheduler.backends[0].metrics.cache_config->0.capacity(),
        ) - load_on(programs, scheduler.backends[0].url) - program_count(
            programs,
            scheduler.backends[0].url,
        ) * BUFFER_PER_PROGRAM,
{
    let url = scheduler.backends[0].url;
    reveal_with_fuel(SchedulerView::rooms, 3);
    a_sum_is_not_negative(programs, one_on(url));
    a_sum_is_not_negative(programs, tokens_on(url, ProgramStatus::Reasoning));
    a_sum_is_not_negative(programs, tokens_on(url, ProgramStatus::Acting));
    assert(scheduler.backends[0].remaining_fits(programs, used[0]));
    assert(scheduler.rooms(programs, used, 1) =~= one_room(room_now(scheduler, programs, used)));
}

proof fn the_paused_stand_for_themselves(
    scheduler: SchedulerView,
    programs: Map<Seq<char>, ProgramView>,
    used: Seq<u64>,
    entries: Seq<(String, Program)>,
)
    requires
        stands_alone(scheduler, programs, used),
        lists(entries, programs),
    ensures
        stand_for_paused(stable_sorted(candidates_of(entries), ranked_before()), programs),
{
    let candidates = candidates_of(entries);
    let ranked = stable_sorted(candidates, ranked_before());
    candidates_are_distinct(entries);
    sorting_keeps_keys_distinct(candidates, ranked_before(), candidate_id());
    assert forall|k: int| 0 <= k < ranked.len() implies stands_for_paused(
        #[trigger] ranked[k],
        programs,
    ) by {
        assert(ranked.contains(ranked[k]));
        sorting_keeps_each_item(candidates, ranked_before(), ranked[k]);
        paused_programs_are_considered(entries, programs, ranked[k]);
    }
}

proof fn some_stand_for_paused(
    some: Seq<CandidateView>,
    all: Seq<CandidateView>,
    programs: Map<Seq<char>, ProgramView>,
)
    requires
        stand_for_paused(all, programs),
        distinct_by(some, candidate_id()),
        forall|x: CandidateView| #[trigger] some.contains(x) ==> all.contains(x),
    ensures
        stand_for_paused(some, programs),
{
    assert forall|k: int| 0 <= k < some.len() implies stands_for_paused(
        #[trigger] some[k],
        programs,
    ) by {
        assert(some.contains(some[k]));
        let m = choose|m: int| 0 <= m < all.len() && all[m] == some[k];
        assert(stands_for_paused(all[m], programs));
    }
}

proof fn a_pass_over_one_room(
    scheduler: SchedulerView,
    programs: Map<Seq<char>, ProgramView>,
    used: Seq<u64>,
    entries: Seq<(String, Program)>,
    after: Map<Seq<char>, ProgramView>,
    id: Seq<char>,
)
    requires
        stands_alone(scheduler, programs, used),
        scheduler.resumed_in_order(programs, used, entries, after),
        room_now(scheduler, programs, used) >= BUFFER_PER_PROGRAM,
    ensures
        ({
            let room = room_now(scheduler, programs, used);
            let ranked = stable_sorted(candidates_of(entries), ranked_before());
            forall|x: CandidateView| #[trigger]
                admitted(ranked, room).0.contains(x) ==> !resumable(after, x.program_id)
        }),
        ({
            let url = scheduler.backends[0].url;
            let left = as_signed(scheduler.backends[0].metrics.cache_config->0.capacity())
                - load_on(after, url) - program_count(after, url) * BUFFER_PER_PROGRAM;
            &&& 0 <= left <= room_now(scheduler, programs, used)
            &&& resumable(after, id) ==> resumable(programs, id) && after[id] == programs[id]
                && after[id].total_tokens + BUFFER_PER_PROGRAM > left
        }),
{
    let room = room_now(scheduler, programs, used);
    let url = scheduler.backends[0].url;
    let candidates = candidates_of(entries);
    let ranked = stable_sorted(candidates, ranked_before());
    let chosen = admitted(ranked, room).0;
    let largest = stable_sorted(chosen, larger_before());
    the_one_room(scheduler, programs, used);
    one_room_less(room, 0);
    the_paused_stand_for_themselves(scheduler, programs, used, entries);
    the_chosen_are_some(ranked, room);
    the_chosen_fit(ranked, room);
    some_stand_for_paused(chosen, ranked, programs);
    sorting_keeps_keys_distinct(chosen, larger_before(), candidate_id());
    assert forall|x: CandidateView| #[trigger] largest.contains(x) implies chosen.contains(x) by {
        sorting_keeps_each_item(chosen, larger_before(), x);
    }
    some_stand_for_paused(largest, chosen, programs);
    sorting_keeps_needs(chosen, larger_before());
    sorting_keeps_the_number(chosen, larger_before());
    a_walk_sums_up(entries, programs, one_on(url));
    one_room_takes_all(programs, room, largest, scheduler.urls());
    needs_are_not_negative(chosen, programs);
    assert forall|x: CandidateView| #[trigger] chosen.contains(x) implies !resumable(
        after,
        x.program_id,
    ) by {
        sorting_keeps_each_item(chosen, larger_before(), x);
        let k = choose|k: int| 0 <= k < largest.len() && largest[k] == x;
        assert(!resumable(after, largest[k].program_id));
    }
    if resumable(after, id) {
        assert(resumable(programs, id));
        let waiting = CandidateView {
            program_id: id,
            total_tokens: programs[id].total_tokens,
            priority: priority_of(programs[id]),
        };
        paused_programs_are_considered(entries, programs, waiting);
        sorting_keeps_each_item(candidates, ranked_before(), waiting);
        assert(!chosen.contains(waiting));
        assert forall|k: int| 0 <= k < ranked.len() implies 0 <= room_for(
            (#[trigger] ranked[k]).total_tokens,
        ) by {
            assert(stands_for_paused(ranked[k], programs));
        }
        those_left_out_do_not_fit(ranked, room, waiting);
    }
}

proof fn needs_are_not_negative(
    candidates: Seq<CandidateView>,
    programs: Map<Seq<char>, ProgramView>,
)
    requires
        forall|k: int|
            0 <= k < candidates.len() ==> stands_for_paused(#[trigger] candidates[k], programs),
    ensures
        0 <= needs(candidates),
    decreases candidates.len(),
{
    if candidates.len() > 0 {
        let front = candidates.drop_last();
        assert forall|k: int| 0 <= k < front.len() implies stands_for_paused(
            #[trigger] front[k],
            programs,
        ) by {
            assert(stands_for_paused(candidates[k], programs));
        }
        needs_are_not_negative(front, programs);
        assert(stands_for_paused(candidates[candidates.len() - 1], programs));
    }
}

/// What the programs on the one backend use.
pub open spec fn used_on(
    scheduler: SchedulerView,
    programs: Map<Seq<char>, ProgramView>,
) -> Seq<u64> {
    seq![load_on(programs, scheduler.backends[0].url) as u64]
}

/// On one backend nothing that fits is left waiting: after a pass every program that is still paused
/// needs more than the room that is left then.
pub proof fn nothing_that_fits_is_left_waiting(
    scheduler: SchedulerView,
    programs: Map<Seq<char>, ProgramView>,
    used: Seq<u64>,
    after: Map<Seq<char>, ProgramView>,
)
    requires
        stands_alone(scheduler, programs, used),
        scheduler.greedily_resumed(programs, used, after),
    ensures
        stands_alone(scheduler, after, used_on(scheduler, after)),
        forall|id: Seq<char>| #[trigger]
            resumable(after, id) ==> after[id].total_tokens + BUFFER_PER_PROGRAM
                > scheduler.backends[0].remaining(after, used_on(scheduler, after)[0])->0,
{
    let entries = choose|entries: Seq<(String, Program)>| #[trigger]
        scheduler.resumed_in_order(programs, used, entries, after);
    let backend = scheduler.backends[0];
    let used_after = used_on(scheduler, after);
    the_one_room(scheduler, programs, used);
    if room_now(scheduler, programs, used) < BUFFER_PER_PROGRAM {
        one_room_less(room_now(scheduler, programs, used), 0);
        assert(after == programs);
        assert(used_after =~= used);
    } else {
        a_pass_over_one_room(scheduler, programs, used, entries, after, Seq::empty());
        a_sum_is_not_negative(after, one_on(backend.url));
        a_sum_is_not_negative(after, tokens_on(backend.url, ProgramStatus::Reasoning));
        a_sum_is_not_negative(after, tokens_on(backend.url, ProgramStatus::Acting));
        assert(backend.remaining_fits(after, used_after[0]));
        assert forall|id: Seq<char>| #[trigger] resumable(after, id) implies after[id].backend_url
            is None && after[id].total_tokens + BUFFER_PER_PROGRAM <= i64::MAX
            && after[id].total_tokens + BUFFER_PER_PROGRAM > backend.remaining(
            after,
            used_after[0],
        )->0 by {
            a_pass_over_one_room(scheduler, programs, used, entries, after, id);
        }
    }
}

/// On one backend a second pass right after the first changes nothing.
pub proof fn a_second_pass_changes_nothing(
    scheduler: SchedulerView,
    programs: Map<Seq<char>, ProgramView>,
    used: Seq<u64>,
    after: Map<Seq<char>, ProgramView>,
    later: Map<Seq<char>, ProgramView>,
)
    requires
        stands_alone(scheduler, programs, used),
        scheduler.greedily_resumed(programs, used, after),
        scheduler.greedily_resumed(after, used_on(scheduler, after), later),
    ensures
        later == after,
{
    let used_after = used_on(scheduler, after);
    nothing_that_fits_is_left_waiting(scheduler, programs, used, after);
    let entries = choose|entries: Seq<(String, Program)>| #[trigger]
        scheduler.resumed_in_order(after, used_after, entries, later);
    let room = room_now(scheduler, after, used_after);
    let candidates = candidates_of(entries);
    let ranked = stable_sorted(candidates, ranked_before());
    the_one_room(scheduler, after, used_after);
    one_room_less(room, 0);
    the_paused_stand_for_themselves(scheduler, after, used_after, entries);
    assert forall|k: int| 0 <= k < ranked.len() implies room_for(
        (#[trigger] ranked[k]).total_tokens,
    ) > room by {
        assert(stands_for_paused(ranked[k], after));
        assert(resumable(after, ranked[k].program_id));
    }
    none_is_chosen(ranked, room);
}

/// The room that the programs under the given ids need together.
pub open spec fn needs_of(programs: Map<Seq<char>, ProgramView>, ids: Seq<Seq<char>>) -> int
    decreases ids.len(),
{
    if ids.len() == 0 {
        0
    } else {
        needs_of(programs, ids.drop_last()) + room_for(programs[ids.last()].total_tokens)
    }
}

proof fn needs_without_one(programs: Map<Seq<char>, ProgramView>, ids: Seq<Seq<char>>, k: int)
    requires
        0 <= k < ids.len(),
    ensures
        needs_of(programs, ids) == needs_of(programs, ids.remove(k)) + room_for(
            programs[ids[k]].total_tokens,
        ),
    decreases ids.len(),
{
    if k == ids.len() - 1 {
        assert(ids.remove(k) =~= ids.drop_last());
    } else {
        needs_without_one(programs, ids.drop_last(), k);
        assert(ids.remove(k).drop_last() =~= ids.drop_last().remove(k));
    }
}

proof fn some_need_no_more_than_all(
    programs: Map<Seq<char>, ProgramView>,
    some: Seq<CandidateView>,
    ids: Seq<Seq<char>>,
)
    requires
        distinct_by(some, candidate_id()),
        forall|k: int|
            0 <= k < some.len() ==> (#[trigger] some[k]).total_tokens
                == programs[some[k].program_id].total_tokens && ids.contains(some[k].program_id),
        forall|k: int|
            0 <= k < ids.len() ==> 0 <= room_for(programs[#[trigger] ids[k]].total_tokens),
    ensures
        needs(some) <= needs_of(programs, ids),
    decreases ids.len() + some.len(),
{
    if some.len() > 0 {
        let last = some.last();
        let front = some.drop_last();
        assert(ids.contains(some[some.len() - 1].program_id));
        let k = choose|k: int| 0 <= k < ids.len() && ids[k] == last.program_id;
        let rest = ids.remove(k);
        assert forall|i: int, j: int| 0 <= i < j < front.len() implies candidate_id()(
            #[trigger] front[i],
        ) != candidate_id()(#[trigger] front[j]) by {
            assert(candidate_id()(some[i]) != candidate_id()(some[j]));
        }
        assert forall|i: int| 0 <= i < front.len() implies (#[trigger] front[i]).total_tokens
            == programs[front[i].program_id].total_tokens && rest.contains(
            front[i].program_id,
        ) by {
            assert(ids.contains(some[i].program_id));
            assert(candidate_id()(some[i]) != candidate_id()(some[some.len() - 1]));
            let m = choose|m: int| 0 <= m < ids.len() && ids[m] == some[i].program_id;
            assert(rest[if m < k { m } else { m - 1 }] == some[i].program_id);
        }
        assert forall|i: int| 0 <= i < rest.len() implies 0 <= room_for(
            programs[#[trigger] rest[i]].total_tokens,
        ) by {
            assert(rest[i] == ids[if i < k { i } else { i + 1 }]);
        }
        some_need_no_more_than_all(programs, front, rest);
        needs_without_one(programs, ids, k);
    } else if ids.len() > 0 {
        let front = ids.drop_last();
        assert forall|i: int| 0 <= i < front.len() implies 0 <= room_for(
            programs[#[trigger] front[i]].total_tokens,
        ) by {
            assert(front[i] == ids[i]);
        }
        some_need_no_more_than_all(programs, some, front);
        assert(0 <= room_for(programs[ids[ids.len() - 1]].total_tokens));
    }
}

proof fn one_waits_for_those_ahead_only(
    scheduler: SchedulerView,
    programs: Map<Seq<char>, ProgramView>,
    used: Seq<u64>,
    after: Map<Seq<char>, ProgramView>,
    waiting: Seq<char>,
    ids: Seq<Seq<char>>,
)
    requires
        stands_alone(scheduler, programs, used),
        scheduler.greedily_resumed(programs, used, after),
        resumable(after, waiting),
        forall|id: Seq<char>| #[trigger] ids.contains(id) ==> resumable(programs, id),
        forall|id: Seq<char>| #[trigger]
            resumable(programs, id) && !resumable(after, id) && (priority_of(programs[id])
                < priority_of(programs[waiting]) || (priority_of(programs[id]) == priority_of(
                programs[waiting],
            ) && programs[id].total_tokens <= programs[waiting].total_tokens)) ==> ids.contains(id),
    ensures
        needs_of(programs, ids) + room_for(programs[waiting].total_tokens)
            > scheduler.backends[0].remaining(programs, used[0])->0,
{
    let entries = choose|entries: Seq<(String, Program)>| #[trigger]
        scheduler.resumed_in_order(programs, used, entries, after);
    let room = room_now(scheduler, programs, used);
    let candidates = candidates_of(entries);
    let ranked = stable_sorted(candidates, ranked_before());
    let none = Seq::<CandidateView>::empty();
    the_one_room(scheduler, programs, used);
    assert forall|k: int| 0 <= k < ids.len() implies 0 <= room_for(
        programs[#[trigger] ids[k]].total_tokens,
    ) by {
        assert(ids.contains(ids[k]));
        assert(resumable(programs, ids[k]));
    }
    if room < BUFFER_PER_PROGRAM {
        one_room_less(room, 0);
        assert(after == programs);
        some_need_no_more_than_all(programs, none, ids);
        assert(resumable(programs, waiting));
    } else {
        a_pass_over_one_room(scheduler, programs, used, entries, after, waiting);
        the_paused_stand_for_themselves(scheduler, programs, used, entries);
        let asked = CandidateView {
            program_id: waiting,
            total_tokens: programs[waiting].total_tokens,
            priority: priority_of(programs[waiting]),
        };
        paused_programs_are_considered(entries, programs, asked);
        sorting_keeps_each_item(candidates, ranked_before(), asked);
        let n = choose|n: int| 0 <= n < ranked.len() && ranked[n] == asked;
        let ahead = ranked.take(n);
        let (taken, sum) = admitted(ahead, room);
        let with_asked = admitted(ranked.take(n + 1), room).0;
        let chosen = admitted(ranked, room).0;
        assert(ranked.take(n + 1).drop_last() =~= ahead);
        assert(ranked.take(n + 1).last() == asked);
        later_candidates_take_nothing(ranked, room, n);
        later_candidates_take_nothing(ranked, room, n + 1);
        assert(!chosen.contains(asked));
        if sum + room_for(asked.total_tokens) <= room {
            assert(with_asked[with_asked.len() - 1] == asked);
            assert(chosen[with_asked.len() - 1] == asked);
        }
        assert forall|i: int, j: int| 0 <= i < j < ahead.len() implies candidate_id()(
            #[trigger] ahead[i],
        ) != candidate_id()(#[trigger] ahead[j]) by {
            assert(candidate_id()(ranked[i]) != candidate_id()(ranked[j]));
        }
        the_chosen_are_some(ahead, room);
        sorting_sorts(candidates, ranked_before());
        assert forall|k: int| 0 <= k < taken.len() implies (#[trigger] taken[k]).total_tokens
            == programs[taken[k].program_id].total_tokens && ids.contains(
            taken[k].program_id,
        ) by {
            assert(taken.contains(taken[k]));
            let m = choose|m: int| 0 <= m < ahead.len() && ahead[m] == taken[k];
            assert(ranked[m] == taken[k]);
            assert(stands_for_paused(ranked[m], programs));
            assert(!ranked_before()(ranked[n], ranked[m]));
            assert(ranked.contains(ranked[m]));
            sorting_keeps_each_item(candidates, ranked_before(), ranked[m]);
            paused_programs_are_considered(entries, programs, ranked[m]);
            assert(chosen[k] == taken[k]);
            assert(chosen.contains(taken[k]));
        }
        some_need_no_more_than_all(programs, taken, ids);
    }
}

/// On one backend a program waits only for its equals and betters: one that is still paused after a
/// pass needs, together with the programs of the same or a better rank that were resumed, more than
/// the room that there was. `ids` are those programs.
pub proof fn one_waits_for_equals_and_betters_only(
    scheduler: SchedulerView,
    programs: Map<Seq<char>, ProgramView>,
    used: Seq<u64>,
    after: Map<Seq<char>, ProgramView>,
    waiting: Seq<char>,
    ids: Seq<Seq<char>>,
)
    requires
        stands_alone(scheduler, programs, used),
        scheduler.greedily_resumed(programs, used, after),
        resumable(after, waiting),
        ids.no_duplicates(),
        forall|id: Seq<char>| #[trigger]
            ids.contains(id) <==> resumable(programs, id) && !resumable(after, id) && priority_of(
                programs[id],
            ) <= priority_of(programs[waiting]),
    ensures
        needs_of(programs, ids) + room_for(programs[waiting].total_tokens)
            > scheduler.backends[0].remaining(programs, used[0])->0,
{
    assert forall|id: Seq<char>| #[trigger]
        resumable(programs, id) && !resumable(after, id) && (priority_of(programs[id])
            < priority_of(programs[waiting]) || (priority_of(programs[id]) == priority_of(
            programs[waiting],
        ) && programs[id].total_tokens <= programs[waiting].total_tokens)) implies ids.contains(
        id,
    ) by {}
    one_waits_for_those_ahead_only(scheduler, programs, used, after, waiting, ids);
}

/// On one backend a program in the middle of its reasoning, with any step count but one, waits only
/// for programs in the middle of theirs with no more tokens than it holds: together with those of
/// them that were resumed it needs more than the room that there was.
pub proof fn a_reasoning_program_waits_for_smaller_reasoning_ones_only(
    scheduler: SchedulerView,
    programs: Map<Seq<char>, ProgramView>,
    used: Seq<u64>,
    after: Map<Seq<char>, ProgramView>,
    waiting: Seq<char>,
    ids: Seq<Seq<char>>,
)
    requires
        stands_alone(scheduler, programs, used),
        scheduler.greedily_resumed(programs, used, after),
        after.contains_key(waiting) && after[waiting].state == ProgramState::Paused,
        programs[waiting].step_count != 1 && programs[waiting].status == ProgramStatus::Reasoning,
        ids.no_duplicates(),
        forall|id: Seq<char>| #[trigger]
            ids.contains(id) <==> resumable(programs, id) && !resumable(after, id)
                && programs[id].step_count != 1 && programs[id].status == ProgramStatus::Reasoning
                && programs[id].total_tokens <= programs[waiting].total_tokens,
    ensures
        needs_of(programs, ids) + programs[waiting].total_tokens + 100
            > scheduler.backends[0].remaining(programs, used[0])->0,
{
    assert forall|id: Seq<char>| #[trigger]
        resumable(programs, id) && !resumable(after, id) && (priority_of(programs[id])
            < priority_of(programs[waiting]) || (priority_of(programs[id]) == priority_of(
            programs[waiting],
        ) && programs[id].total_tokens <= programs[waiting].total_tokens)) implies ids.contains(
        id,
    ) by {}
    one_waits_for_those_ahead_only(scheduler, programs, used, after, waiting, ids);
    the_one_that_waits_waited(scheduler, programs, used, after, waiting);
}

/// On one backend a new program, one with a step count of one, waits only for programs in the middle
/// of their reasoning and for new ones with no more tokens than it holds: together with those of
/// them that were resumed it needs more than the room that there was.
pub proof fn a_new_program_waits_for_reasoning_and_smaller_new_ones_only(
    scheduler: SchedulerView,
    programs: Map<Seq<char>, ProgramView>,
    used: Seq<u64>,
    after: Map<Seq<char>, ProgramView>,
    waiting: Seq<char>,
    ids: Seq<Seq<char>>,
)
    requires
        stands_alone(scheduler, programs, used),
        scheduler.greedily_resumed(programs, used, after),
        after.contains_key(waiting) && after[waiting].state == ProgramState::Paused,
        programs[waiting].step_count == 1,
        ids.no_duplicates(),
        forall|id: Seq<char>| #[trigger]
            ids.contains(id) <==> resumable(programs, id) && !resumable(after, id) && ((
            programs[id].step_count != 1 && programs[id].status == ProgramStatus::Reasoning) || (
            programs[id].step_count == 1 && programs[id].total_tokens
                <= programs[waiting].total_tokens)),
    ensures
        needs_of(programs, ids) + programs[waiting].total_tokens + 100
            > scheduler.backends[0].remaining(programs, used[0])->0,
{
    assert forall|id: Seq<char>| #[trigger]
        resumable(programs, id) && !resumable(after, id) && (priority_of(programs[id])
            < priority_of(programs[waiting]) || (priority_of(programs[id]) == priority_of(
            programs[waiting],
        ) && programs[id].total_tokens <= programs[waiting].total_tokens)) implies ids.contains(
        id,
    ) by {}
    one_waits_for_those_ahead_only(scheduler, programs, used, after, waiting, ids);
    the_one_that_waits_waited(scheduler, programs, used, after, waiting);
}

/// On one backend an acting program waits only for programs that reason or are new and for acting
/// ones with no more tokens than it holds: together with those of them that were resumed it needs
/// more than the room that there was.
pub proof fn an_acting_program_waits_for_no_larger_acting_one(
    scheduler: SchedulerView,
    programs: Map<Seq<char>, ProgramView>,
    used: Seq<u64>,
    after: Map<Seq<char>, ProgramView>,
    waiting: Seq<char>,
    ids: Seq<Seq<char>>,
)
    requires
        stands_alone(scheduler, programs, used),
        scheduler.greedily_resumed(programs, used, after),
        after.contains_key(waiting) && after[waiting].state == ProgramState::Paused,
        programs[waiting].step_count != 1 && programs[waiting].status == ProgramStatus::Acting,
        ids.no_duplicates(),
        forall|id: Seq<char>| #[trigger]
            ids.contains(id) <==> resumable(programs, id) && !resumable(after, id) && (
            programs[id].step_count == 1 || programs[id].status == ProgramStatus::Reasoning
                || programs[id].total_tokens <= programs[waiting].total_tokens),
    ensures
        needs_of(programs, ids) + programs[waiting].total_tokens + 100
            > scheduler.backends[0].remaining(programs, used[0])->0,
{
    assert forall|id: Seq<char>| #[trigger]
        resumable(programs, id) && !resumable(after, id) && (priority_of(programs[id])
            < priority_of(programs[waiting]) || (priority_of(programs[id]) == priority_of(
            programs[waiting],
        ) && programs[id].total_tokens <= programs[waiting].total_tokens)) implies ids.contains(
        id,
    ) by {}
    one_waits_for_those_ahead_only(scheduler, programs, used, after, waiting, ids);
    the_one_that_waits_waited(scheduler, programs, used, after, waiting);
}

proof fn the_one_that_waits_waited(
    scheduler: SchedulerView,
    programs: Map<Seq<char>, ProgramView>,
    used: Seq<u64>,
    after: Map<Seq<char>, ProgramView>,
    waiting: Seq<char>,
)
    requires
        stands_alone(scheduler, programs, used),
        scheduler.greedily_resumed(programs, used, after),
        resumable(after, waiting),
    ensures
        resumable(programs, waiting),
        room_for(programs[waiting].total_tokens) == programs[waiting].total_tokens + 100,
{
    let entries = choose|entries: Seq<(String, Program)>| #[trigger]
        scheduler.resumed_in_order(programs, used, entries, after);
    the_one_room(scheduler, programs, used);
    if room_now(scheduler, programs, used) < BUFFER_PER_PROGRAM {
        one_room_less(room_now(scheduler, programs, used), 0);
    } else {
        a_pass_over_one_room(scheduler, programs, used, entries, after, waiting);
    }
    assert(resumable(programs, waiting));
}

/// What programs need together is their tokens and a buffer of 100 for each.
pub proof fn needs_are_tokens_and_buffers(
    programs: Map<Seq<char>, ProgramView>,
    ids: Seq<Seq<char>>,
    next: Seq<char>,
)
    requires
        programs[next].total_tokens + 100 <= i64::MAX,
    ensures
        needs_of(programs, Seq::empty()) == 0,
        needs_of(programs, ids.push(next)) == needs_of(programs, ids) + programs[next].total_tokens
            + 100,
{
    assert(ids.push(next).drop_last() =~= ids);
}

} // verus!
