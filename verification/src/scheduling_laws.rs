//! What holds of the scheduler as a whole: who gets the slots, in what order,
//! and within what bounds.
use vstd::prelude::*;
use vstd::set_lib::{lemma_int_range, set_int_range};
use crate::queue::Dispatch;
use crate::schedule::{
    lemma_sum_at_least, lemma_sum_update, next_state, DrainStep, Event, QueueView, StateView,
};

verus! {

/// How many of the steps served the project at position `i`.
pub open spec fn served(steps: Seq<DrainStep>, i: int) -> nat
    decreases steps.len(),
{
    if steps.len() == 0 {
        0
    } else {
        served(steps.drop_last(), i) + if steps.last().position == i {
            1nat
        } else {
            0nat
        }
    }
}

/// How many of the steps gave a slot that was taken.
pub open spec fn slots_given(steps: Seq<DrainStep>) -> nat
    decreases steps.len(),
{
    if steps.len() == 0 {
        0
    } else {
        slots_given(steps.drop_last()) + if steps.last().delivered {
            1nat
        } else {
            0nat
        }
    }
}

/// How many of the steps gave the project at position `i` a slot that was taken.
pub open spec fn slots_given_to(steps: Seq<DrainStep>, i: int) -> nat
    decreases steps.len(),
{
    if steps.len() == 0 {
        0
    } else {
        slots_given_to(steps.drop_last(), i) + if steps.last().delivered && steps.last().position
            == i {
            1nat
        } else {
            0nat
        }
    }
}

/// Whether two states have the same projects, with the same rank, share and
/// limits, and the same number of slots.
pub open spec fn same_projects<T>(a: StateView<T>, b: StateView<T>) -> bool {
    &&& a.slots == b.slots
    &&& a.projects.len() == b.projects.len()
    &&& forall|i: int|
        0 <= i < a.projects.len() ==> {
            &&& (#[trigger] a.projects[i]).name == b.projects[i].name
            &&& a.projects[i].priority == b.projects[i].priority
            &&& a.projects[i].share == b.projects[i].share
            &&& a.projects[i].max_slots == b.projects[i].max_slots
            &&& a.projects[i].max_queue_size == b.projects[i].max_queue_size
        }
}

/// Whether every project has a share.
pub open spec fn all_have_shares<T>(s: StateView<T>) -> bool {
    forall|i: int| 0 <= i < s.projects.len() ==> (#[trigger] s.projects[i]).share >= 1
}

/// The part of the numbers below the total weight that falls to a project.
pub open spec fn picks_of<T>(s: StateView<T>, i: int) -> Set<int> {
    Set::new(|p: int| 0 <= p < s.total_weight() && s.selects(p as nat, i))
}

/// Capacity within a tier is shared by weight: of the numbers from which one is
/// drawn, a candidate of the most important tier has as many as its share says,
/// and nobody else has any.
pub proof fn law_capacity_is_shared_by_weight<T>(s: StateView<T>, i: int)
    requires
        0 <= i < s.projects.len(),
    ensures
        picks_of(s, i).finite(),
        picks_of(s, i).len() == if s.in_top_tier(i) {
            s.projects[i].share as nat
        } else {
            0
        },
{
    let lo = s.weight_before(i) as int;
    let hi = lo + s.weight(i);
    s.lemma_weight_monotone(i + 1, s.projects.len() as int);
    assert(s.weight_before(i + 1) == hi);
    assert(picks_of(s, i) =~= set_int_range(lo, hi));
    lemma_int_range(lo, hi);
}

/// Every number below the total weight falls to exactly one project.
pub proof fn law_every_pick_selects_one_project<T>(s: StateView<T>, pick: nat)
    requires
        pick < s.total_weight(),
    ensures
        exists|i: int| s.selects(pick, i),
        forall|i: int, j: int| s.selects(pick, i) && s.selects(pick, j) ==> i == j,
{
    lemma_some_selected(s, pick, s.projects.len() as int);
    assert forall|i: int, j: int| s.selects(pick, i) && s.selects(pick, j) implies i == j by {
        if i < j {
            s.lemma_weight_monotone(i + 1, j);
        } else if j < i {
            s.lemma_weight_monotone(j + 1, i);
        }
    }
}

/// A number below the weight of the first `n` projects falls to a project.
pub proof fn lemma_some_selected<T>(s: StateView<T>, pick: nat, n: int)
    requires
        0 <= n <= s.projects.len(),
        pick < s.weight_before(n),
    ensures
        exists|i: int| s.selects(pick, i),
    decreases n,
{
    if s.weight_before(n - 1) <= pick {
        assert(s.selects(pick, n - 1));
    } else {
        lemma_some_selected(s, pick, n - 1);
    }
}

/// Tiers are strict: a project is served only where no more important project
/// waits. So a tier is fully served before the next one gets any slots.
pub proof fn law_tiers_are_strict<T>(s: StateView<T>, served: int, other: int)
    requires
        s.may_serve(served),
        s.waiting(other),
    ensures
        s.projects[served].priority <= s.projects[other].priority,
{
}

/// The same over a series of steps: as long as requests of a project wait,
/// nobody less important is served.
pub proof fn law_a_tier_is_served_before_the_next<T>(
    s: StateView<T>,
    steps: Seq<DrainStep>,
    k: int,
    other: int,
)
    requires
        s.lawful(steps),
        0 <= k < steps.len(),
        s.after(steps.take(k)).waiting(other),
    ensures
        s.projects[steps[k].position as int].priority <= s.projects[other].priority,
{
    let mid = s.after(steps.take(k));
    assert(mid.may_serve(steps[k].position as int));
    law_tiers_are_strict(mid, steps[k].position as int, other);
    assert forall|j: int| 0 <= j < steps.take(k).len() implies #[trigger] s.after(
        steps.take(k).take(j),
    ).may_serve(steps.take(k)[j].position as int) by {
        assert(steps.take(k).take(j) =~= steps.take(j));
        assert(s.after(steps.take(j)).may_serve(steps[j].position as int));
    }
    lemma_steps_keep_the_projects(s, steps.take(k));
    assert(s.projects[steps[k].position as int].priority
        == mid.projects[steps[k].position as int].priority);
    assert(s.projects[other].priority == mid.projects[other].priority);
}

/// No free slot is kept from a request that may have it: where every project
/// has a share, handing out stops only when all slots are taken or every project
/// of the most important tier that waits is at its cap.
pub proof fn law_free_slots_are_used<T>(s: StateView<T>)
    requires
        all_have_shares(s),
    ensures
        s.settled() <==> s.full() || forall|i: int|
            s.leads(i) ==> s.projects[i].in_flight >= s.projects[i].max_slots,
{
    if exists|i: int| s.in_top_tier(i) {
        let top = choose|i: int| s.in_top_tier(i);
        s.lemma_weight_monotone(top + 1, s.projects.len() as int);
        assert(s.weight_before(top + 1) == s.weight_before(top) + s.weight(top));
        assert(s.leads(top));
    } else {
        s.lemma_no_weight(s.projects.len() as int);
        assert forall|i: int| s.leads(i) implies s.projects[i].in_flight
            >= s.projects[i].max_slots by {
            assert(!s.in_top_tier(i));
        }
    }
}

/// Every operation keeps the projects, their ranks, shares and limits.
pub proof fn law_operations_keep_the_projects<T>(
    s: StateView<T>,
    i: int,
    item: T,
    name: Seq<char>,
    steps: Seq<DrainStep>,
)
    requires
        0 <= i < s.projects.len(),
        s.lawful(steps),
    ensures
        same_projects(s, s.enqueued(i, item)),
        same_projects(s, s.evicted(i)),
        same_projects(s, s.released(name)),
        same_projects(s, s.after(steps)),
{
    if s.has_project(name) {
        let c = s.position_of(name);
        assert(s.projects[c].name == name);
    }
    lemma_steps_keep_the_projects(s, steps);
}

proof fn lemma_lawful_prefix<T>(s: StateView<T>, steps: Seq<DrainStep>)
    requires
        s.lawful(steps),
        steps.len() > 0,
    ensures
        s.lawful(steps.drop_last()),
        s.after(steps.drop_last()).may_serve(steps.last().position as int),
{
    let before = steps.drop_last();
    assert forall|k: int| 0 <= k < before.len() implies #[trigger] s.after(
        before.take(k),
    ).may_serve(before[k].position as int) by {
        assert(before.take(k) =~= steps.take(k));
        assert(s.after(steps.take(k)).may_serve(steps[k].position as int));
    }
    assert(steps.take(steps.len() - 1) =~= before);
    assert(s.after(steps.take(steps.len() - 1)).may_serve(
        steps[steps.len() - 1].position as int,
    ));
}

proof fn lemma_steps_keep_the_projects<T>(s: StateView<T>, steps: Seq<DrainStep>)
    requires
        s.lawful(steps),
    ensures
        same_projects(s, s.after(steps)),
    decreases steps.len(),
{
    if steps.len() > 0 {
        lemma_lawful_prefix(s, steps);
        lemma_steps_keep_the_projects(s, steps.drop_last());
    }
}

/// Handing out slots keeps everything in order: no project goes over its cap,
/// no more slots are taken than there are, and the slots taken are those that
/// the projects hold. Each step takes one request out of a queue, and each slot
/// that is taken up counts once.
pub proof fn law_caps_hold_while_slots_are_handed_out<T>(s: StateView<T>, steps: Seq<DrainStep>)
    requires
        s.wf(),
        s.lawful(steps),
    ensures
        s.after(steps).wf(),
        s.balanced() ==> s.after(steps).balanced(),
        s.after(steps).in_flight <= s.slots,
        forall|i: int|
            0 <= i < s.projects.len() ==> (#[trigger] s.after(steps).projects[i]).in_flight
                <= s.projects[i].max_slots,
        s.after(steps).queued() + steps.len() == s.queued(),
        s.after(steps).in_flight == s.in_flight + slots_given(steps),
    decreases steps.len(),
{
    lemma_steps_keep_the_projects(s, steps);
    if steps.len() > 0 {
        lemma_lawful_prefix(s, steps);
        law_caps_hold_while_slots_are_handed_out(s, steps.drop_last());
        s.after(steps.drop_last()).lemma_stepped(steps.last());
    }
}

/// Each project's queue is first in, first out: after any lawful series of
/// steps, what is left of a queue is what stood behind the requests that were
/// served from it.
pub proof fn law_queues_are_first_in_first_out<T>(s: StateView<T>, steps: Seq<DrainStep>, i: int)
    requires
        s.lawful(steps),
        0 <= i < s.projects.len(),
    ensures
        served(steps, i) <= s.projects[i].items.len(),
        s.after(steps).projects[i].items == s.projects[i].items.skip(served(steps, i) as int),
    decreases steps.len(),
{
    if steps.len() == 0 {
        assert(s.projects[i].items.skip(0) =~= s.projects[i].items);
    } else {
        lemma_lawful_prefix(s, steps);
        lemma_steps_keep_the_projects(s, steps.drop_last());
        law_queues_are_first_in_first_out(s, steps.drop_last(), i);
        let mid = s.after(steps.drop_last());
        if steps.last().position == i {
            assert(mid.projects[i].items.drop_first() =~= s.projects[i].items.skip(
                served(steps, i) as int,
            ));
        }
    }
}

/// A request that joins a queue is the next to be served from it once exactly
/// those that stood before it have been served.
pub proof fn law_a_request_waits_for_those_before_it<T>(
    s: StateView<T>,
    i: int,
    item: T,
    steps: Seq<DrainStep>,
)
    requires
        0 <= i < s.projects.len(),
        s.enqueued(i, item).lawful(steps),
        served(steps, i) == s.projects[i].items.len(),
    ensures
        s.enqueued(i, item).after(steps).projects[i].items == seq![item],
{
    law_queues_are_first_in_first_out(s.enqueued(i, item), steps, i);
    assert(s.projects[i].items.push(item).skip(s.projects[i].items.len() as int) =~= seq![item]);
}

/// Giving a slot back undoes taking it: the counts stand as they did, and only
/// the request has left its queue.
pub proof fn law_release_undoes_a_grant<T>(s: StateView<T>, i: int)
    requires
        s.wf(),
        s.may_serve(i),
    ensures
        s.granted(i).released(s.projects[i].name) == s.discarded(i),
{
    let g = s.granted(i);
    let name = s.projects[i].name;
    assert(g.projects[i].name == name);
    assert(g.has_project(name));
    let c = g.position_of(name);
    assert(g.projects[c].name == name);
    assert(c == i) by {
        if c != i {
            assert(s.projects[c].name == g.projects[c].name);
        }
    }
    assert(g.released(name) =~= s.discarded(i));
}

/// The numbers that come with a slot are those of the state after it was taken.
/// Where the slot goes back at once, one less stands in both counts.
pub proof fn law_a_dispatch_shows_the_counts<T>(s: StateView<T>, i: int, dispatch: Dispatch<T>)
    requires
        s.wf(),
        s.may_serve(i),
        dispatch.offered(s, i),
    ensures
        dispatch.permit@ == s.granted(i).projects[i].name,
        dispatch.queue_size == s.granted(i).projects[i].items.len(),
        dispatch.in_flight == s.granted(i).projects[i].in_flight,
        dispatch.slots_in_use == s.granted(i).in_flight,
        dispatch.in_flight - 1 == s.discarded(i).projects[i].in_flight,
        dispatch.slots_in_use - 1 == s.discarded(i).in_flight,
{
}

/// Giving back a slot that a project holds keeps the slots taken equal to those
/// that the projects hold.
pub proof fn law_release_keeps_the_balance<T>(s: StateView<T>, i: int)
    requires
        s.wf(),
        s.balanced(),
        0 <= i < s.projects.len(),
        s.projects[i].in_flight > 0,
    ensures
        s.released(s.projects[i].name).wf(),
        s.released(s.projects[i].name).balanced(),
        s.released(s.projects[i].name).in_flight == s.in_flight - 1,
{
    s.lemma_position(i);
    s.lemma_released(s.projects[i].name);
    lemma_sum_at_least(s.projects, i, |q: QueueView<T>| q.in_flight as nat);
}

/// A request that joins a queue touches no other queue and no slot, and one
/// request more waits. Giving a slot back touches no queue.
pub proof fn law_requests_wait_apart<T>(s: StateView<T>, i: int, item: T, name: Seq<char>)
    requires
        0 <= i < s.projects.len(),
    ensures
        s.enqueued(i, item).queued() == s.queued() + 1,
        s.enqueued(i, item).in_flight == s.in_flight,
        s.enqueued(i, item).projects[i].in_flight == s.projects[i].in_flight,
        s.enqueued(i, item).projects[i].items == s.projects[i].items.push(item),
        forall|j: int|
            0 <= j < s.projects.len() && j != i ==> #[trigger] s.enqueued(i, item).projects[j]
                == s.projects[j],
        s.released(name).queued() == s.queued(),
        forall|j: int|
            0 <= j < s.projects.len() ==> (#[trigger] s.released(name).projects[j]).items
                == s.projects[j].items,
{
    let waiting = |q: QueueView<T>| q.items.len();
    lemma_sum_update(s.projects, i, s.enqueued(i, item).projects[i], waiting);
    if s.has_project(name) {
        let c = s.position_of(name);
        assert(s.projects[c].name == name);
        lemma_sum_update(s.projects, c, s.released(name).projects[c], waiting);
    }
}

/// Eviction takes only the newest waiting request of the least important
/// project that waits. No slot changes hands, every other queue stays as it is,
/// and some more important project waits.
pub proof fn law_eviction_spares_everyone_else<T>(s: StateView<T>)
    requires
        s.wf(),
        s.should_evict(),
    ensures
        ({
            let t = s.eviction_target();
            let after = s.evicted(t);
            &&& s.is_eviction_target(t)
            &&& after.projects[t].items == s.projects[t].items.drop_last()
            &&& after.in_flight == s.in_flight
            &&& forall|j: int|
                0 <= j < s.projects.len() ==> (#[trigger] after.projects[j]).in_flight
                    == s.projects[j].in_flight
            &&& forall|j: int|
                0 <= j < s.projects.len() && j != t ==> #[trigger] after.projects[j]
                    == s.projects[j]
            &&& exists|i: int| #[trigger]
                s.waiting(i) && s.projects[i].priority < s.projects[t].priority
            &&& after.wf()
            &&& after.queued() + 1 == s.queued()
        }),
{
    let (i, j) = choose|i: int, j: int|
        #![trigger s.waiting(i), s.waiting(j)]
        s.waiting(i) && s.waiting(j) && s.projects[i].priority < s.projects[j].priority;
    let t = lemma_worst_exists(s, s.projects.len() as int, j);
    s.lemma_one_eviction_target(t);
    s.lemma_evicted(t);
    assert(s.waiting(j) ==> s.projects[j].priority <= s.projects[t].priority);
    assert(s.waiting(i) && s.projects[i].priority < s.projects[t].priority);
}

/// Whether the project at position `i` would be evicted from, were there only
/// the first `n` projects.
spec fn worst_of<T>(s: StateView<T>, n: int, i: int) -> bool {
    &&& 0 <= i < n
    &&& s.waiting(i)
    &&& forall|j: int|
        0 <= j < n && #[trigger] s.waiting(j) ==> {
            ||| s.projects[j].priority < s.projects[i].priority
            ||| {
                &&& s.projects[j].priority == s.projects[i].priority
                &&& s.projects[j].share >= s.projects[i].share
                &&& j < i ==> s.projects[j].share > s.projects[i].share
            }
        }
}

proof fn lemma_worst_exists<T>(s: StateView<T>, n: int, some: int) -> (t: int)
    requires
        0 <= some < n <= s.projects.len(),
        s.waiting(some),
    ensures
        worst_of(s, n, t),
        n == s.projects.len() ==> s.is_eviction_target(t),
    decreases n,
{
    if forall|j: int| 0 <= j < n - 1 ==> !s.waiting(j) {
        n - 1
    } else {
        let w = choose|j: int| 0 <= j < n - 1 && s.waiting(j);
        let before = lemma_worst_exists(s, n - 1, w);
        if s.waiting(n - 1) && (s.projects[n - 1].priority > s.projects[before].priority || (
        s.projects[n - 1].priority == s.projects[before].priority && s.projects[n - 1].share
            < s.projects[before].share)) {
            n - 1
        } else {
            before
        }
    }
}

/// The state after a series of events.
pub open spec fn state_after<T>(start: StateView<T>, events: Seq<Event<T>>) -> StateView<T>
    decreases events.len(),
{
    if events.len() == 0 {
        start
    } else {
        next_state(state_after(start, events.drop_last()), events.last())
    }
}

/// How many slots the project at position `i` has been given and has not given
/// back, over a series of events.
pub open spec fn slots_held<T>(start: StateView<T>, events: Seq<Event<T>>, i: int) -> int
    decreases events.len(),
{
    if events.len() == 0 {
        start.projects[i].in_flight as int
    } else {
        let before = slots_held(start, events.drop_last(), i);
        match events.last() {
            Event::Arrival(_, _) => before,
            Event::HandOut(steps) => before + slots_given_to(steps, i),
            Event::Return(name) => if name == start.projects[i].name {
                before - 1
            } else {
                before
            },
        }
    }
}

/// Whether slots are handed out by the rules, and only slots that are held are
/// given back.
pub open spec fn proper<T>(start: StateView<T>, events: Seq<Event<T>>) -> bool
    decreases events.len(),
{
    if events.len() == 0 {
        true
    } else {
        let before = events.drop_last();
        &&& proper(start, before)
        &&& match events.last() {
            Event::Arrival(_, _) => true,
            Event::HandOut(steps) => state_after(start, before).lawful(steps),
            Event::Return(name) => start.has_project(name) && slots_held(
                start,
                before,
                start.position_of(name),
            ) > 0,
        }
    }
}

proof fn lemma_slots_given<T>(s: StateView<T>, steps: Seq<DrainStep>, i: int)
    requires
        s.wf(),
        s.lawful(steps),
        0 <= i < s.projects.len(),
    ensures
        s.after(steps).projects[i].in_flight == s.projects[i].in_flight + slots_given_to(steps, i),
    decreases steps.len(),
{
    if steps.len() > 0 {
        lemma_lawful_prefix(s, steps);
        lemma_steps_keep_the_projects(s, steps.drop_last());
        law_caps_hold_while_slots_are_handed_out(s, steps.drop_last());
        lemma_slots_given(s, steps.drop_last(), i);
    }
}

/// Whatever happens, and in whatever order: a project never holds more slots
/// than its cap, all projects together never hold more than there are, and the
/// scheduler counts exactly the slots that are held.
pub proof fn law_caps_always_hold<T>(start: StateView<T>, events: Seq<Event<T>>)
    requires
        start.wf(),
        start.balanced(),
        proper(start, events),
    ensures
        same_projects(start, state_after(start, events)),
        state_after(start, events).wf(),
        state_after(start, events).balanced(),
        state_after(start, events).in_flight <= start.slots,
        forall|i: int|
            0 <= i < start.projects.len() ==> {
                &&& #[trigger] slots_held(start, events, i) == state_after(
                    start,
                    events,
                ).projects[i].in_flight
                &&& 0 <= slots_held(start, events, i) <= start.projects[i].max_slots
            },
    decreases events.len(),
{
    if events.len() > 0 {
        let before = events.drop_last();
        law_caps_always_hold(start, before);
        let s = state_after(start, before);
        match events.last() {
            Event::Arrival(name, item) => {
                if s.has_project(name) {
                    let i = s.position_of(name);
                    assert(s.projects[i].name == name);
                    if s.projects[i].items.len() < s.projects[i].max_queue_size {
                        s.lemma_enqueued(i, item);
                    }
                }
                assert forall|i: int| 0 <= i < start.projects.len() implies #[trigger] slots_held(
                    start,
                    events,
                    i,
                ) == state_after(start, events).projects[i].in_flight by {
                    assert(slots_held(start, before, i) == s.projects[i].in_flight);
                }
            },
            Event::HandOut(steps) => {
                law_caps_hold_while_slots_are_handed_out(s, steps);
                lemma_steps_keep_the_projects(s, steps);
                let mid = s.after(steps);
                if mid.full() && mid.should_evict() {
                    law_eviction_spares_everyone_else(mid);
                    mid.lemma_evicted(mid.eviction_target());
                }
                assert forall|i: int| 0 <= i < start.projects.len() implies #[trigger] slots_held(
                    start,
                    events,
                    i,
                ) == state_after(start, events).projects[i].in_flight by {
                    lemma_slots_given(s, steps, i);
                    assert(slots_held(start, before, i) == s.projects[i].in_flight);
                    assert(mid.projects[i].in_flight == next_state(
                        s,
                        events.last(),
                    ).projects[i].in_flight);
                }
            },
            Event::Return(name) => {
                let c = start.position_of(name);
                assert(start.projects[c].name == name);
                assert(s.projects[c].name == name);
                assert(slots_held(start, before, c) == s.projects[c].in_flight);
                law_release_keeps_the_balance(s, c);
                s.lemma_position(c);
                assert forall|i: int| 0 <= i < start.projects.len() implies #[trigger] slots_held(
                    start,
                    events,
                    i,
                ) == state_after(start, events).projects[i].in_flight by {
                    assert(slots_held(start, before, i) == s.projects[i].in_flight);
                    if i != c {
                        assert(start.projects[i].name != name);
                    }
                }
            },
        }
        assert forall|i: int| 0 <= i < start.projects.len() implies 0 <= #[trigger] slots_held(
            start,
            events,
            i,
        ) <= start.projects[i].max_slots by {
            assert(slots_held(start, events, i) == state_after(
                start,
                events,
            ).projects[i].in_flight);
        }
    }
}

} // verus!
