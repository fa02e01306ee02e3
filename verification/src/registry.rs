//! The programs that the router knows, by their ids.

use crate::program::{Program, ProgramSnapshot, ProgramView};
use crate::text::{text_before, text_less, texts_are_ordered, the_order_of_texts_chains};
use dashmap::DashMap;
use vstd::prelude::*;

verus! {

#[verifier::external_type_specification]
#[verifier::external_body]
#[verifier::reject_recursive_types(K)]
#[verifier::reject_recursive_types(V)]
#[verifier::reject_recursive_types(S)]
pub struct ExDashMap<K, V, S>(DashMap<K, V, S>);

/// The programs that a `DashMap` holds under their keys.
pub uninterp spec fn programs_in(map: DashMap<String, Program>) -> Map<Seq<char>, ProgramView>;

/// `DashMap::new`: an empty map.
#[verifier::external_body]
fn empty_map() -> (map: DashMap<String, Program>)
    ensures
        programs_in(map).is_empty(),
{
    DashMap::new()
}

/// `DashMap::len`: how many programs the map holds.
#[verifier::external_body]
fn map_len(map: &DashMap<String, Program>) -> (len: usize)
    ensures
        len == programs_in(*map).dom().len(),
{
    map.len()
}

/// `DashMap::entry` with `or_insert_with`: a program that the map has under the key stays; without
/// one the given program goes in.
#[verifier::external_body]
fn insert_if_absent(map: &mut DashMap<String, Program>, key: String, program: Program)
    ensures
        programs_in(*final(map)) == if programs_in(*old(map)).contains_key(key@) {
            programs_in(*old(map))
        } else {
            programs_in(*old(map)).insert(key@, program@)
        },
{
    map.entry(key).or_insert_with(|| program);
}

/// `DashMap::get_mut`: where the map has a program under the key, that program and the given one
/// change places; otherwise both stay.
#[verifier::external_body]
fn swap_under(map: &mut DashMap<String, Program>, key: &str, program: &mut Program) -> (found: bool)
    ensures
        found == programs_in(*old(map)).contains_key(key@),
        programs_in(*final(map)) == if found {
            programs_in(*old(map)).insert(key@, old(program)@)
        } else {
            programs_in(*old(map))
        },
        final(program)@ == if found {
            programs_in(*old(map))[key@]
        } else {
            old(program)@
        },
{
    map.get_mut(key).map(|mut held| std::mem::swap(held.value_mut(), program)).is_some()
}

/// `DashMap::iter`: every key with its program, each once, in an order that nothing is said about.
#[verifier::external_body]
fn walk(map: &DashMap<String, Program>) -> (entries: Vec<(String, Program)>)
    ensures
        lists(entries@, programs_in(*map)),
{
    map.iter().map(|entry| (entry.key().clone(), entry.value().clone())).collect()
}

/// `entries` holds each key of `programs` once, with its program.
pub open spec fn lists(
    entries: Seq<(String, Program)>,
    programs: Map<Seq<char>, ProgramView>,
) -> bool {
    &&& forall|i: int, j: int|
        0 <= i < j < entries.len() ==> (#[trigger] entries[i]).0@ != (#[trigger] entries[j]).0@
    &&& forall|i: int|
        0 <= i < entries.len() ==> programs.contains_key((#[trigger] entries[i]).0@)
            && programs[entries[i].0@] == entries[i].1@
    &&& forall|key: Seq<char>| #[trigger]
        programs.contains_key(key) ==> exists|i: int|
            0 <= i < entries.len() && (#[trigger] entries[i]).0@ == key
}

/// What the programs of a registry weigh together.
pub open spec fn sum_over(
    programs: Map<Seq<char>, ProgramView>,
    weight: spec_fn(ProgramView) -> int,
) -> int
    decreases programs.dom().len(),
{
    if programs.dom().finite() && programs.dom().len() > 0 {
        let key = programs.dom().choose();
        weight(programs[key]) + sum_over(programs.remove(key), weight)
    } else {
        0
    }
}

/// What the first `n` entries of a walk weigh together.
pub open spec fn sum_of_entries(
    entries: Seq<(String, Program)>,
    weight: spec_fn(ProgramView) -> int,
) -> int
    decreases entries.len(),
{
    if entries.len() == 0 {
        0
    } else {
        sum_of_entries(entries.drop_last(), weight) + weight(entries.last().1@)
    }
}

/// A registry of programs. The map is changed through an exclusive borrow only.
#[derive(Debug)]
pub struct ProgramRegistry {
    programs: DashMap<String, Program>,
}

impl View for ProgramRegistry {
    type V = Map<Seq<char>, ProgramView>;

    closed spec fn view(&self) -> Map<Seq<char>, ProgramView> {
        programs_in(self.programs)
    }
}

impl ProgramRegistry {
    pub fn new() -> (r: ProgramRegistry)
        ensures
            r@ == Map::<Seq<char>, ProgramView>::empty(),
    {
        ProgramRegistry { programs: empty_map() }
    }

    /// How many programs there are.
    pub fn len(&self) -> (r: usize)
        ensures
            r == self@.dom().len(),
    {
        map_len(&self.programs)
    }

    /// Adds a program under an id that has none yet.
    pub fn insert_if_absent(&mut self, program_id: &str, program: Program)
        ensures
            final(self)@ == if old(self)@.contains_key(program_id@) {
                old(self)@
            } else {
                old(self)@.insert(program_id@, program@)
            },
    {
        insert_if_absent(&mut self.programs, program_id.to_owned(), program);
    }

    /// Lets the program under an id and the given one change places, and tells whether there was
    /// one; without one nothing changes.
    pub fn exchange(&mut self, program_id: &str, program: &mut Program) -> (found: bool)
        ensures
            found == old(self)@.contains_key(program_id@),
            final(self)@ == if found {
                old(self)@.insert(program_id@, old(program)@)
            } else {
                old(self)@
            },
            final(program)@ == if found {
                old(self)@[program_id@]
            } else {
                old(program)@
            },
    {
        swap_under(&mut self.programs, program_id, program)
    }

    /// All programs with their ids, in no particular order.
    pub fn entries(&self) -> (r: Vec<(String, Program)>)
        ensures
            lists(r@, self@),
    {
        walk(&self.programs)
    }
}

/// Taking one program out of a registry takes what it weighs off the sum.
pub proof fn sum_without(
    programs: Map<Seq<char>, ProgramView>,
    weight: spec_fn(ProgramView) -> int,
    key: Seq<char>,
)
    requires
        programs.dom().finite(),
        programs.contains_key(key),
    ensures
        sum_over(programs, weight) == weight(programs[key]) + sum_over(
            programs.remove(key),
            weight,
        ),
    decreases programs.dom().len(),
{
    let first = programs.dom().choose();
    if first != key {
        let rest = programs.remove(first);
        sum_without(rest, weight, key);
        sum_without(programs.remove(key), weight, first);
        assert(rest.remove(key) == programs.remove(key).remove(first));
    }
}

/// Putting a program under an id changes the registry's sum by what the program weighs, less what
/// the one before it under that id weighed.
pub proof fn one_program_more(
    programs: Map<Seq<char>, ProgramView>,
    weight: spec_fn(ProgramView) -> int,
    key: Seq<char>,
    program: ProgramView,
)
    requires
        programs.dom().finite(),
    ensures
        sum_over(programs.insert(key, program), weight) == sum_over(programs, weight) + weight(
            program,
        ) - if programs.contains_key(key) {
            weight(programs[key])
        } else {
            0
        },
{
    let after = programs.insert(key, program);
    sum_without(after, weight, key);
    if programs.contains_key(key) {
        sum_without(programs, weight, key);
        assert(after.remove(key) =~= programs.remove(key));
    } else {
        assert(after.remove(key) =~= programs);
    }
}

/// Where every program of a registry weighs nothing, so do all together.
pub proof fn a_sum_of_nothing_is_nothing(
    programs: Map<Seq<char>, ProgramView>,
    weight: spec_fn(ProgramView) -> int,
)
    requires
        forall|key: Seq<char>| #[trigger]
            programs.contains_key(key) ==> weight(programs[key]) == 0,
    ensures
        sum_over(programs, weight) == 0,
    decreases programs.dom().len(),
{
    if programs.dom().finite() && programs.dom().len() > 0 {
        let key = programs.dom().choose();
        assert(programs.contains_key(key));
        let rest = programs.remove(key);
        assert forall|k: Seq<char>| #[trigger] rest.contains_key(k) implies weight(rest[k])
            == 0 by {
            assert(programs.contains_key(k));
        }
        a_sum_of_nothing_is_nothing(rest, weight);
    }
}

/// Where no program weighs less than nothing, neither do all together.
pub proof fn a_sum_is_not_negative(
    programs: Map<Seq<char>, ProgramView>,
    weight: spec_fn(ProgramView) -> int,
)
    requires
        forall|program: ProgramView| 0 <= #[trigger] weight(program),
    ensures
        0 <= sum_over(programs, weight),
    decreases programs.dom().len(),
{
    if programs.dom().finite() && programs.dom().len() > 0 {
        a_sum_is_not_negative(programs.remove(programs.dom().choose()), weight);
    }
}

/// A walk over a registry gives the registry's sum, whatever the order of the walk.
pub proof fn a_walk_sums_up(
    entries: Seq<(String, Program)>,
    programs: Map<Seq<char>, ProgramView>,
    weight: spec_fn(ProgramView) -> int,
)
    requires
        lists(entries, programs),
    ensures
        programs.dom().finite(),
        programs.dom().len() == entries.len(),
        sum_of_entries(entries, weight) == sum_over(programs, weight),
    decreases entries.len(),
{
    if entries.len() == 0 {
        assert(programs.dom() =~= Set::<Seq<char>>::empty()) by {
            assert forall|key: Seq<char>| !programs.dom().contains(key) by {
                if programs.contains_key(key) {
                    assert(false);
                }
            }
        }
    } else {
        let last = entries.last();
        let front = entries.drop_last();
        let rest = programs.remove(last.0@);
        assert(lists(front, rest)) by {
            assert forall|i: int| 0 <= i < front.len() implies rest.contains_key(
                (#[trigger] front[i]).0@,
            ) && rest[front[i].0@] == front[i].1@ by {
                assert(entries[i].0@ != entries[entries.len() - 1].0@);
            }
            assert forall|key: Seq<char>| #[trigger] rest.contains_key(key) implies exists|i: int|
                0 <= i < front.len() && (#[trigger] front[i]).0@ == key by {
                assert(programs.contains_key(key));
                let i = choose|i: int| 0 <= i < entries.len() && (#[trigger] entries[i]).0@ == key;
                assert(front[i].0@ == key);
            }
        }
        a_walk_sums_up(front, rest, weight);
        assert(programs.dom() =~= rest.dom().insert(last.0@));
        sum_without(programs, weight, last.0@);
    }
}

/// `shown` holds a snapshot of each program, in the order of their ids.
pub open spec fn shows(
    shown: Seq<(String, ProgramSnapshot)>,
    programs: Map<Seq<char>, ProgramView>,
) -> bool {
    &&& forall|i: int, j: int|
        0 <= i < j < shown.len() ==> text_before(
            (#[trigger] shown[i]).0@,
            (#[trigger] shown[j]).0@,
        )
    &&& forall|i: int|
        0 <= i < shown.len() ==> programs.contains_key((#[trigger] shown[i]).0@)
            && programs[shown[i].0@].shown() == shown[i].1@
    &&& forall|key: Seq<char>| #[trigger]
        programs.contains_key(key) ==> exists|i: int|
            0 <= i < shown.len() && (#[trigger] shown[i]).0@ == key
}

proof fn a_walk_goes_on(
    entries: Seq<(String, Program)>,
    programs: Map<Seq<char>, ProgramView>,
    n: int,
)
    requires
        lists(entries, programs),
        0 <= n < entries.len(),
    ensures
        !programs.restrict(keys_of(entries.take(n))).contains_key(entries[n].0@),
        programs.restrict(keys_of(entries.take(n + 1))) == programs.restrict(
            keys_of(entries.take(n)),
        ).insert(entries[n].0@, entries[n].1@),
{
    let before = programs.restrict(keys_of(entries.take(n)));
    let after = programs.restrict(keys_of(entries.take(n + 1)));
    if before.contains_key(entries[n].0@) {
        let i = choose|i: int|
            0 <= i < entries.take(n).len() && (#[trigger] entries.take(n)[i]).0@ == entries[n].0@;
        assert(entries[i].0@ != entries[n].0@);
    }
    assert(entries.take(n + 1)[n].0@ == entries[n].0@);
    assert forall|key: Seq<char>| after.contains_key(key) == before.insert(
        entries[n].0@,
        entries[n].1@,
    ).contains_key(key) by {
        if after.contains_key(key) && key != entries[n].0@ {
            let i = choose|i: int|
                0 <= i < entries.take(n + 1).len() && (#[trigger] entries.take(n + 1)[i]).0@ == key;
            assert(entries.take(n)[i].0@ == key);
        }
        if before.contains_key(key) {
            let i = choose|i: int|
                0 <= i < entries.take(n).len() && (#[trigger] entries.take(n)[i]).0@ == key;
            assert(entries.take(n + 1)[i].0@ == key);
        }
    }
    assert(after =~= before.insert(entries[n].0@, entries[n].1@));
}

/// The keys in a part of a walk.
pub open spec fn keys_of(entries: Seq<(String, Program)>) -> Set<Seq<char>> {
    Set::new(
        |key: Seq<char>|
            exists|i: int| 0 <= i < entries.len() && (#[trigger] entries[i]).0@ == key,
    )
}

proof fn a_snapshot_goes_in(
    shown: Seq<(String, ProgramSnapshot)>,
    programs: Map<Seq<char>, ProgramView>,
    place: int,
    x: (String, ProgramSnapshot),
    program: ProgramView,
)
    requires
        shows(shown, programs),
        !programs.contains_key(x.0@),
        program.shown() == x.1@,
        0 <= place <= shown.len(),
        forall|i: int| 0 <= i < place ==> !text_before(x.0@, (#[trigger] shown[i]).0@),
        place < shown.len() ==> text_before(x.0@, shown[place].0@),
    ensures
        shows(shown.insert(place, x), programs.insert(x.0@, program)),
{
    let r = shown.insert(place, x);
    let all = programs.insert(x.0@, program);
    assert forall|i: int, j: int| 0 <= i < j < r.len() implies text_before(
        (#[trigger] r[i]).0@,
        (#[trigger] r[j]).0@,
    ) by {
        let a = if i < place { i } else { i - 1 };
        let b = if j < place { j } else { j - 1 };
        if i != place && j != place {
            assert(text_before(shown[a].0@, shown[b].0@));
        } else if j == place {
            assert(!text_before(x.0@, shown[a].0@));
            assert(programs.contains_key(shown[a].0@));
            texts_are_ordered(x.0@, shown[a].0@);
        } else {
            if b > place {
                assert(text_before(shown[place].0@, shown[b].0@));
                the_order_of_texts_chains(x.0@, shown[place].0@, shown[b].0@);
            }
        }
    }
    assert forall|i: int| 0 <= i < r.len() implies all.contains_key((#[trigger] r[i]).0@)
        && all[r[i].0@].shown() == r[i].1@ by {
        let a = if i < place { i } else { i - 1 };
        if i != place {
            assert(programs.contains_key(shown[a].0@));
        }
    }
    assert forall|key: Seq<char>| #[trigger] all.contains_key(key) implies exists|i: int|
        0 <= i < r.len() && (#[trigger] r[i]).0@ == key by {
        if key == x.0@ {
            assert(r[place].0@ == key);
        } else {
            assert(programs.contains_key(key));
            let a = choose|a: int| 0 <= a < shown.len() && (#[trigger] shown[a]).0@ == key;
            assert(r[if a < place { a } else { a + 1 }].0@ == key);
        }
    }
}

/// A snapshot of every program, in the order of their ids.
pub fn snapshot_programs(programs: &ProgramRegistry) -> (r: Vec<(String, ProgramSnapshot)>)
    ensures
        shows(r@, programs@),
{
    let entries = programs.entries();
    let mut shown: Vec<(String, ProgramSnapshot)> = Vec::new();
    let mut n: usize = 0;
    while n < entries.len()
        invariant
            n <= entries@.len(),
            lists(entries@, programs@),
            shows(shown@, programs@.restrict(keys_of(entries@.take(n as int)))),
        decreases entries@.len() - n,
    {
        let program_id = entries[n].0.clone();
        let snapshot = ProgramSnapshot::from(&entries[n].1);
        let mut place: usize = 0;
        while place < shown.len() && !text_less(program_id.as_str(), shown[place].0.as_str())
            invariant
                place <= shown@.len(),
                forall|i: int|
                    0 <= i < place ==> !text_before(program_id@, (#[trigger] shown@[i]).0@),
            decreases shown@.len() - place,
        {
            place = place + 1;
        }
        proof {
            a_walk_goes_on(entries@, programs@, n as int);
            a_snapshot_goes_in(
                shown@,
                programs@.restrict(keys_of(entries@.take(n as int))),
                place as int,
                (program_id, snapshot),
                entries@[n as int].1@,
            );
        }
        shown.insert(place, (program_id, snapshot));
        n = n + 1;
    }
    proof {
        assert(entries@.take(entries@.len() as int) == entries@);
        assert(programs@.restrict(keys_of(entries@)) =~= programs@);
    }
    shown
}

proof fn the_last_snapshot_goes(
    shown: Seq<(String, ProgramSnapshot)>,
    programs: Map<Seq<char>, ProgramView>,
)
    requires
        shows(shown, programs),
        shown.len() > 0,
    ensures
        shows(shown.drop_last(), programs.remove(shown.last().0@)),
        forall|key: Seq<char>| #[trigger]
            programs.contains_key(key) && key != shown.last().0@ ==> text_before(
                key,
                shown.last().0@,
            ),
{
    let last = shown.len() - 1;
    let front = shown.drop_last();
    let rest = programs.remove(shown.last().0@);
    assert forall|key: Seq<char>| #[trigger]
        programs.contains_key(key) && key != shown.last().0@ implies text_before(
        key,
        shown.last().0@,
    ) && exists|i: int| 0 <= i < front.len() && (#[trigger] front[i]).0@ == key by {
        let i = choose|i: int| 0 <= i < shown.len() && (#[trigger] shown[i]).0@ == key;
        assert(text_before(shown[i].0@, shown[last].0@));
        assert(front[i].0@ == key);
    }
    assert forall|i: int| 0 <= i < front.len() implies rest.contains_key((#[trigger] front[i]).0@)
        && rest[front[i].0@].shown() == front[i].1@ by {
        assert(programs.contains_key(shown[i].0@));
        assert(text_before(shown[i].0@, shown[last].0@));
        texts_are_ordered(shown[i].0@, shown[last].0@);
    }
    assert forall|key: Seq<char>| #[trigger] rest.contains_key(key) implies exists|i: int|
        0 <= i < front.len() && (#[trigger] front[i]).0@ == key by {
        assert(programs.contains_key(key));
    }
}

/// There is one way to show a registry.
pub proof fn a_registry_is_shown_in_one_way(
    a: Seq<(String, ProgramSnapshot)>,
    b: Seq<(String, ProgramSnapshot)>,
    programs: Map<Seq<char>, ProgramView>,
)
    requires
        shows(a, programs),
        shows(b, programs),
    ensures
        a.len() == b.len(),
        forall|i: int|
            0 <= i < a.len() ==> (#[trigger] a[i]).0@ == (#[trigger] b[i]).0@ && a[i].1@
                == b[i].1@,
    decreases a.len(),
{
    if a.len() == 0 {
        if b.len() > 0 {
            assert(programs.contains_key(b[0].0@));
        }
    } else {
        assert(programs.contains_key(a[a.len() - 1].0@));
        assert(b.len() > 0);
        assert(programs.contains_key(b[b.len() - 1].0@));
        the_last_snapshot_goes(a, programs);
        the_last_snapshot_goes(b, programs);
        texts_are_ordered(a.last().0@, b.last().0@);
        assert(a.last().0@ == b.last().0@);
        a_registry_is_shown_in_one_way(
            a.drop_last(),
            b.drop_last(),
            programs.remove(a.last().0@),
        );
        assert forall|i: int| 0 <= i < a.len() implies (#[trigger] a[i]).0@ == (#[trigger] b[i]).0@
            && a[i].1@ == b[i].1@ by {
            if i < a.len() - 1 {
                assert(a.drop_last()[i].0@ == b.drop_last()[i].0@);
            }
        }
    }
}

/// Every program is shown once, under its own id and as it is, and nothing else is shown; the ids
/// stand in their order.
pub proof fn every_program_is_shown_as_it_is(
    shown: Seq<(String, ProgramSnapshot)>,
    programs: Map<Seq<char>, ProgramView>,
    id: Seq<char>,
)
    requires
        shows(shown, programs),
    ensures
        programs.contains_key(id) <==> exists|i: int|
            0 <= i < shown.len() && (#[trigger] shown[i]).0@ == id,
        forall|i: int|
            0 <= i < shown.len() && (#[trigger] shown[i]).0@ == id ==> {
                let one = shown[i].1;
                let program = programs[id];
                &&& one.context_len == program.context_len
                &&& one.total_tokens == program.total_tokens
                &&& one.step_count == program.step_count
                &&& one.status == program.status
                &&& one.state == program.state
                &&& one@.backend_url == program.backend_url
                &&& one@.origin_backend == program.origin_backend
                &&& one.marked_for_pause == program.marked_for_pause
                &&& one.paused_at_ms == program.paused_at_ms
            },
        forall|i: int, j: int|
            0 <= i < j < shown.len() ==> (#[trigger] shown[i]).0@ != (#[trigger] shown[j]).0@
                && text_before(shown[i].0@, shown[j].0@),
{
    assert forall|i: int, j: int| 0 <= i < j < shown.len() implies (#[trigger] shown[i]).0@ != (
    #[trigger] shown[j]).0@ && text_before(shown[i].0@, shown[j].0@) by {
        texts_are_ordered(shown[i].0@, shown[j].0@);
    }
}

/// A walk comes by every program once, under its own id and as it is, and by nothing else.
pub proof fn a_walk_comes_by_everything_once(
    entries: Seq<(String, Program)>,
    programs: Map<Seq<char>, ProgramView>,
    id: Seq<char>,
)
    requires
        lists(entries, programs),
    ensures
        programs.contains_key(id) <==> exists|i: int|
            0 <= i < entries.len() && (#[trigger] entries[i]).0@ == id,
        forall|i: int|
            0 <= i < entries.len() && (#[trigger] entries[i]).0@ == id ==> entries[i].1@
                == programs[id],
        forall|i: int, j: int|
            0 <= i < j < entries.len() ==> (#[trigger] entries[i]).0@ != (#[trigger] entries[j]).0@,
{
}

} // verus!
