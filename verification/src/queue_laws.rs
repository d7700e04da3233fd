//! What each operation does to the queues, said in the numbers of the queues
//! themselves.
use vstd::prelude::*;
use vstd::set_lib::{lemma_int_range, set_int_range};
use crate::config::ProxyConfig;
use crate::queue::{
    eviction_done, handed_over, may_be_drawn, picked_by_draw, Dispatch, Eviction, QueueError,
};
use crate::schedule::{
    initial_state, next_state, sum_of, DrainStep, Event, QueueView, StateView, MAX_QUEUE_SIZE,
};
use crate::scheduling_laws::{law_eviction_spares_everyone_else, lemma_some_selected};

verus! {

/// A slot may go to a project exactly where a slot is free, the project has
/// requests in its queue, holds fewer slots than its cap and has a share, and no
/// project with requests in its queue is more important. How many requests wait
/// makes no difference.
pub proof fn law_who_may_get_a_slot<T>(s: StateView<T>, i: int)
    ensures
        s.may_serve(i) <==> {
            &&& 0 <= i < s.projects.len()
            &&& s.in_flight < s.slots
            &&& s.projects[i].items.len() > 0
            &&& s.projects[i].in_flight < s.projects[i].max_slots
            &&& s.projects[i].share > 0
            &&& forall|j: int|
                0 <= j < s.projects.len() && (#[trigger] s.projects[j]).items.len() > 0
                    ==> s.projects[i].priority <= s.projects[j].priority
        },
{
    if 0 <= i < s.projects.len() && s.projects[i].items.len() > 0 && forall|j: int|
        0 <= j < s.projects.len() && (#[trigger] s.projects[j]).items.len() > 0
            ==> s.projects[i].priority <= s.projects[j].priority {
        assert forall|j: int| #[trigger] s.waiting(j) implies s.projects[i].priority
            <= s.projects[j].priority by {
            assert(s.projects[j].items.len() > 0);
        }
    }
    if s.may_serve(i) {
        assert forall|j: int|
            0 <= j < s.projects.len() && (#[trigger] s.projects[j]).items.len()
                > 0 implies s.projects[i].priority <= s.projects[j].priority by {
            assert(s.waiting(j));
        }
    }
}

/// A project waits exactly where it has requests in its queue, however many. It
/// is a candidate where it is also below its cap and nobody with requests in a
/// queue is more important. All slots are taken where as many are counted as
/// there are.
pub proof fn law_what_waiting_means<T>(s: StateView<T>, i: int)
    ensures
        s.waiting(i) <==> 0 <= i < s.projects.len() && s.projects[i].items.len() > 0,
        s.eligible(i) <==> 0 <= i < s.projects.len() && s.projects[i].items.len() > 0
            && s.projects[i].in_flight < s.projects[i].max_slots,
        s.in_top_tier(i) <==> {
            &&& 0 <= i < s.projects.len()
            &&& s.projects[i].items.len() > 0
            &&& s.projects[i].in_flight < s.projects[i].max_slots
            &&& forall|j: int|
                0 <= j < s.projects.len() && (#[trigger] s.projects[j]).items.len() > 0
                    ==> s.projects[i].priority <= s.projects[j].priority
        },
        s.full() <==> s.in_flight >= s.slots,
{
    if s.in_top_tier(i) {
        assert forall|j: int|
            0 <= j < s.projects.len() && (#[trigger] s.projects[j]).items.len()
                > 0 implies s.projects[i].priority <= s.projects[j].priority by {
            assert(s.waiting(j));
        }
    }
    if 0 <= i < s.projects.len() && s.projects[i].items.len() > 0 && forall|j: int|
        0 <= j < s.projects.len() && (#[trigger] s.projects[j]).items.len() > 0
            ==> s.projects[i].priority <= s.projects[j].priority {
        assert forall|j: int| #[trigger] s.waiting(j) implies s.projects[i].priority
            <= s.projects[j].priority by {
            assert(s.projects[j].items.len() > 0);
        }
        assert(s.leads(i));
    }
}

/// A project's part of the draw is its share where it has requests in its queue,
/// is below its cap and no project with requests in its queue is more important.
/// Otherwise it has no part. So many of the numbers that can be drawn fall to
/// it.
pub proof fn law_a_projects_part_of_the_draw<T>(s: StateView<T>, i: int)
    requires
        0 <= i < s.projects.len(),
    ensures
        ({
            let part = if s.projects[i].items.len() > 0 && s.projects[i].in_flight
                < s.projects[i].max_slots && (forall|j: int|
                0 <= j < s.projects.len() && (#[trigger] s.projects[j]).items.len() > 0
                    ==> s.projects[i].priority <= s.projects[j].priority) {
                s.projects[i].share as nat
            } else {
                0nat
            };
            let numbers = Set::new(
                |p: int| 0 <= p < s.total_weight() && s.selects(p as nat, i),
            );
            &&& s.weight(i) == part
            &&& numbers.finite()
            &&& numbers.len() == part
        }),
{
    let first = forall|j: int|
        0 <= j < s.projects.len() && (#[trigger] s.projects[j]).items.len() > 0
            ==> s.projects[i].priority <= s.projects[j].priority;
    if s.leads(i) {
        assert forall|j: int|
            0 <= j < s.projects.len() && (#[trigger] s.projects[j]).items.len()
                > 0 implies s.projects[i].priority <= s.projects[j].priority by {
            assert(s.waiting(j));
        }
    }
    if first && s.projects[i].items.len() > 0 {
        assert forall|j: int| #[trigger] s.waiting(j) implies s.projects[i].priority
            <= s.projects[j].priority by {
            assert(s.projects[j].items.len() > 0);
        }
        assert(s.leads(i));
    }
    let lo = s.weight_before(i) as int;
    let hi = lo + s.weight(i);
    s.lemma_weight_monotone(i + 1, s.projects.len() as int);
    assert(s.weight_before(i + 1) == hi);
    let numbers = Set::new(|p: int| 0 <= p < s.total_weight() && s.selects(p as nat, i));
    assert(numbers =~= set_int_range(lo, hi));
    lemma_int_range(lo, hi);
}

/// The numbers to draw from are as many as the shares of all candidates
/// together.
pub proof fn law_the_draw_is_as_large_as_all_shares<T>(s: StateView<T>)
    ensures
        s.total_weight() == s.projects.fold_left(
            0nat,
            |sum: nat, q: QueueView<T>|
                sum + if q.items.len() > 0 && q.in_flight < q.max_slots && (forall|j: int|
                    0 <= j < s.projects.len() && (#[trigger] s.projects[j]).items.len() > 0
                        ==> q.priority <= s.projects[j].priority) {
                    q.share as nat
                } else {
                    0nat
                },
        ),
{
    lemma_weights_add_up(s, s.projects.len() as int);
    assert(s.projects.take(s.projects.len() as int) =~= s.projects);
}

proof fn lemma_weights_add_up<T>(s: StateView<T>, n: int)
    requires
        0 <= n <= s.projects.len(),
    ensures
        s.weight_before(n) == s.projects.take(n).fold_left(
            0nat,
            |sum: nat, q: QueueView<T>|
                sum + if q.items.len() > 0 && q.in_flight < q.max_slots && (forall|j: int|
                    0 <= j < s.projects.len() && (#[trigger] s.projects[j]).items.len() > 0
                        ==> q.priority <= s.projects[j].priority) {
                    q.share as nat
                } else {
                    0nat
                },
        ),
    decreases n,
{
    if n > 0 {
        lemma_weights_add_up(s, n - 1);
        law_a_projects_part_of_the_draw(s, n - 1);
        assert(s.projects.take(n).drop_last() =~= s.projects.take(n - 1));
        assert(s.projects.take(n).last() == s.projects[n - 1]);
    }
}

/// Where a slot is free, a project with requests in its queue that is below its
/// cap gets its part of the draw, and handing out goes on, as long as nobody with
/// requests in a queue is more important. This holds for queues of any length.
pub proof fn law_a_free_slot_goes_to_whoever_waits<T>(s: StateView<T>, i: int)
    requires
        forall|j: int| 0 <= j < s.projects.len() ==> (#[trigger] s.projects[j]).share >= 1,
        0 <= i < s.projects.len(),
        s.in_flight < s.slots,
        s.projects[i].items.len() > 0,
        s.projects[i].in_flight < s.projects[i].max_slots,
        forall|j: int|
            0 <= j < s.projects.len() && (#[trigger] s.projects[j]).items.len() > 0
                ==> s.projects[i].priority <= s.projects[j].priority,
    ensures
        !s.settled(),
        s.may_serve(i),
        s.weight(i) == s.projects[i].share,
        s.total_weight() >= s.projects[i].share,
        exists|p: nat| p < s.total_weight() && #[trigger] s.selects(p, i),
{
    law_who_may_get_a_slot(s, i);
    law_a_projects_part_of_the_draw(s, i);
    s.lemma_weight_monotone(i + 1, s.projects.len() as int);
    assert(s.weight_before(i + 1) == s.weight_before(i) + s.weight(i));
    assert(s.selects(s.weight_before(i), i));
}

/// Handing out stops exactly where all slots are taken, or no project that has
/// requests in its queue, a share and a place below its cap is among the most
/// important with requests in their queues.
pub proof fn law_when_handing_out_stops<T>(s: StateView<T>)
    ensures
        s.settled() <==> s.in_flight >= s.slots || forall|i: int|
            0 <= i < s.projects.len() && (#[trigger] s.projects[i]).items.len() > 0
                && s.projects[i].in_flight < s.projects[i].max_slots && s.projects[i].share > 0
                ==> exists|j: int|
                0 <= j < s.projects.len() && (#[trigger] s.projects[j]).items.len() > 0
                    && s.projects[j].priority < s.projects[i].priority,
{
    if s.in_flight < s.slots {
        if s.total_weight() > 0 {
            lemma_some_selected(s, 0, s.projects.len() as int);
            let i = choose|i: int| s.selects(0, i);
            law_who_may_get_a_slot(s, i);
            assert(s.projects[i].items.len() > 0);
        } else {
            assert forall|i: int|
                0 <= i < s.projects.len() && (#[trigger] s.projects[i]).items.len() > 0
                    && s.projects[i].in_flight < s.projects[i].max_slots && s.projects[i].share
                    > 0 implies exists|j: int|
                0 <= j < s.projects.len() && (#[trigger] s.projects[j]).items.len() > 0
                    && s.projects[j].priority < s.projects[i].priority by {
                law_a_projects_part_of_the_draw(s, i);
                s.lemma_weight_monotone(i + 1, s.projects.len() as int);
                assert(s.weight_before(i + 1) == s.weight_before(i) + s.weight(i));
            }
        }
    }
}

/// A pick falls to a project by a number that can be drawn and that lies in the
/// project's part.
pub proof fn law_a_pick_follows_its_number<T>(s: StateView<T>, i: int)
    ensures
        picked_by_draw(s, i) <==> exists|n: u128| #[trigger]
            may_be_drawn(s.total_weight() as u128, n) && s.selects(n as nat, i),
{
}

/// A project that a number falls to has requests in its queue, a share, and a
/// place below its cap, and nobody with requests in a queue is more important.
pub proof fn law_whom_a_number_can_fall_to<T>(s: StateView<T>, pick: nat, i: int)
    ensures
        s.selects(pick, i) ==> {
            &&& 0 <= i < s.projects.len()
            &&& pick < s.total_weight()
            &&& s.projects[i].items.len() > 0
            &&& s.projects[i].in_flight < s.projects[i].max_slots
            &&& s.projects[i].share > 0
            &&& forall|j: int|
                0 <= j < s.projects.len() && (#[trigger] s.projects[j]).items.len() > 0
                    ==> s.projects[i].priority <= s.projects[j].priority
        },
{
    if s.selects(pick, i) {
        law_a_projects_part_of_the_draw(s, i);
        s.lemma_weight_monotone(i + 1, s.projects.len() as int);
        assert(s.weight_before(i + 1) == s.weight_before(i) + s.weight(i));
    }
}

/// Each step of handing out takes the oldest request of one queue. Where its
/// slot is taken, the project and the gateway count one slot more; where it is
/// not, the counts stay. Everything else stays as it was.
pub proof fn law_what_a_step_does<T>(s: StateView<T>, steps: Seq<DrainStep>, step: DrainStep)
    requires
        step.position < s.after(steps).projects.len(),
        s.after(steps).projects[step.position as int].items.len() > 0,
        s.after(steps).projects[step.position as int].in_flight < usize::MAX,
        s.after(steps).in_flight < usize::MAX,
    ensures
        s.after(Seq::empty()) == s,
        ({
            let before = s.after(steps);
            let after = s.after(steps.push(step));
            let q = before.projects[step.position as int];
            let r = after.projects[step.position as int];
            let more: int = if step.delivered {
                1
            } else {
                0
            };
            &&& after.slots == before.slots
            &&& after.in_flight == before.in_flight + more
            &&& after.projects.len() == before.projects.len()
            &&& forall|j: int|
                0 <= j < before.projects.len() && j != step.position
                    ==> #[trigger] after.projects[j] == before.projects[j]
            &&& r.in_flight == q.in_flight + more
            &&& r.items == q.items.subrange(1, q.items.len() as int)
            &&& r.name == q.name
            &&& r.priority == q.priority
            &&& r.share == q.share
            &&& r.max_slots == q.max_slots
            &&& r.max_queue_size == q.max_queue_size
        }),
{
    assert(steps.push(step).drop_last() =~= steps);
}

/// A series of steps is lawful exactly where at each of them a slot was free and
/// went to a project with requests in its queue, below its cap and with a share,
/// while nobody with requests in a queue was more important.
pub proof fn law_which_steps_are_lawful<T>(s: StateView<T>, steps: Seq<DrainStep>)
    ensures
        s.lawful(steps) <==> forall|k: int|
            0 <= k < steps.len() ==> {
                let m = s.after(steps.take(k));
                let i = (#[trigger] steps[k]).position as int;
                &&& i < m.projects.len()
                &&& m.in_flight < m.slots
                &&& m.projects[i].items.len() > 0
                &&& m.projects[i].in_flight < m.projects[i].max_slots
                &&& m.projects[i].share > 0
                &&& forall|j: int|
                    0 <= j < m.projects.len() && (#[trigger] m.projects[j]).items.len() > 0
                        ==> m.projects[i].priority <= m.projects[j].priority
            },
{
    assert forall|k: int| 0 <= k < steps.len() implies ({
        let m = s.after(steps.take(k));
        let i = (#[trigger] steps[k]).position as int;
        &&& i < m.projects.len()
        &&& m.in_flight < m.slots
        &&& m.projects[i].items.len() > 0
        &&& m.projects[i].in_flight < m.projects[i].max_slots
        &&& m.projects[i].share > 0
        &&& forall|j: int|
            0 <= j < m.projects.len() && (#[trigger] m.projects[j]).items.len() > 0
                ==> m.projects[i].priority <= m.projects[j].priority
    } <==> s.after(steps.take(k)).may_serve(steps[k].position as int)) by {
        law_who_may_get_a_slot(s.after(steps.take(k)), steps[k].position as int);
    }
    if s.lawful(steps) {
        assert forall|k: int| 0 <= k < steps.len() implies s.after(steps.take(k)).may_serve(
            (#[trigger] steps[k]).position as int,
        ) by {}
    }
}

/// An eviction is due exactly where two projects have requests in their queues
/// and one of them is more important.
pub proof fn law_when_an_eviction_is_due<T>(s: StateView<T>)
    ensures
        s.should_evict() <==> exists|i: int, j: int|
            #![trigger s.projects[i], s.projects[j]]
            0 <= i < s.projects.len() && 0 <= j < s.projects.len() && s.projects[i].items.len() > 0
                && s.projects[j].items.len() > 0 && s.projects[i].priority
                < s.projects[j].priority,
{
    if exists|i: int, j: int|
        #![trigger s.projects[i], s.projects[j]]
        0 <= i < s.projects.len() && 0 <= j < s.projects.len() && s.projects[i].items.len() > 0
            && s.projects[j].items.len() > 0 && s.projects[i].priority < s.projects[j].priority {
        let (i, j) = choose|i: int, j: int|
            #![trigger s.projects[i], s.projects[j]]
            0 <= i < s.projects.len() && 0 <= j < s.projects.len() && s.projects[i].items.len() > 0
                && s.projects[j].items.len() > 0 && s.projects[i].priority
                < s.projects[j].priority;
        assert(s.waiting(i) && s.waiting(j));
    }
    if s.should_evict() {
        let (i, j) = choose|i: int, j: int|
            #![trigger s.waiting(i), s.waiting(j)]
            s.waiting(i) && s.waiting(j) && s.projects[i].priority < s.projects[j].priority;
        assert(s.projects[i].items.len() > 0 && s.projects[j].items.len() > 0);
    }
}

/// Evicted from is the project that has requests in its queue and is the least
/// important of those; among equals the one with the lowest share, and among
/// those the first. There is one such project where any has requests in its
/// queue.
pub proof fn law_whom_an_eviction_strikes<T>(s: StateView<T>, t: int)
    ensures
        s.is_eviction_target(t) <==> {
            &&& 0 <= t < s.projects.len()
            &&& s.projects[t].items.len() > 0
            &&& forall|j: int|
                0 <= j < s.projects.len() && (#[trigger] s.projects[j]).items.len() > 0 ==> {
                    ||| s.projects[j].priority < s.projects[t].priority
                    ||| s.projects[j].priority == s.projects[t].priority && s.projects[j].share
                        > s.projects[t].share
                    ||| s.projects[j].priority == s.projects[t].priority && s.projects[j].share
                        == s.projects[t].share && j >= t
                }
        },
        s.is_eviction_target(t) ==> s.eviction_target() == t,
{
    if s.is_eviction_target(t) {
        s.lemma_one_eviction_target(t);
        assert forall|j: int|
            0 <= j < s.projects.len() && (#[trigger] s.projects[j]).items.len() > 0 implies {
            ||| s.projects[j].priority < s.projects[t].priority
            ||| s.projects[j].priority == s.projects[t].priority && s.projects[j].share
                > s.projects[t].share
            ||| s.projects[j].priority == s.projects[t].priority && s.projects[j].share
                == s.projects[t].share && j >= t
        } by {
            assert(s.waiting(j));
        }
    }
    if 0 <= t < s.projects.len() && s.projects[t].items.len() > 0 && (forall|j: int|
        0 <= j < s.projects.len() && (#[trigger] s.projects[j]).items.len() > 0 ==> {
            ||| s.projects[j].priority < s.projects[t].priority
            ||| s.projects[j].priority == s.projects[t].priority && s.projects[j].share
                > s.projects[t].share
            ||| s.projects[j].priority == s.projects[t].priority && s.projects[j].share
                == s.projects[t].share && j >= t
        }) {
        assert forall|j: int| #[trigger] s.waiting(j) implies {
            ||| s.projects[j].priority < s.projects[t].priority
            ||| {
                &&& s.projects[j].priority == s.projects[t].priority
                &&& s.projects[j].share >= s.projects[t].share
                &&& j < t ==> s.projects[j].share > s.projects[t].share
            }
        } by {
            assert(s.projects[j].items.len() > 0);
        }
        assert(s.is_eviction_target(t));
    }
}

/// An eviction takes the newest request out of the queue of the project that it
/// strikes, and hands out that request with the project's name and what is left
/// of the queue. No slot and no other queue changes. Where none is due, nothing
/// happens.
pub proof fn law_what_an_eviction_does<T>(
    before: StateView<T>,
    after: StateView<T>,
    evicted: Option<Eviction<T>>,
)
    requires
        before.wf(),
        eviction_done(before, after, evicted),
    ensures
        evicted is Some <==> exists|i: int, j: int|
            #![trigger before.projects[i], before.projects[j]]
            0 <= i < before.projects.len() && 0 <= j < before.projects.len()
                && before.projects[i].items.len() > 0 && before.projects[j].items.len() > 0
                && before.projects[i].priority < before.projects[j].priority,
        evicted is None ==> after == before,
        evicted matches Some(e) ==> exists|t: int|
            {
                let q = #[trigger] before.projects[t];
                let r = after.projects[t];
                &&& 0 <= t < before.projects.len()
                &&& q.items.len() > 0
                &&& forall|j: int|
                    0 <= j < before.projects.len() && (#[trigger] before.projects[j]).items.len()
                        > 0 ==> {
                        ||| before.projects[j].priority < q.priority
                        ||| before.projects[j].priority == q.priority && before.projects[j].share
                            > q.share
                        ||| before.projects[j].priority == q.priority && before.projects[j].share
                            == q.share && j >= t
                    }
                &&& e.project_name@ == q.name
                &&& e.item == q.items[q.items.len() - 1]
                &&& e.queue_size == q.items.len() - 1
                &&& after.in_flight == before.in_flight
                &&& after.slots == before.slots
                &&& after.projects.len() == before.projects.len()
                &&& r.items == q.items.subrange(0, q.items.len() - 1)
                &&& r.in_flight == q.in_flight
                &&& r.name == q.name
                &&& r.priority == q.priority
                &&& r.share == q.share
                &&& r.max_slots == q.max_slots
                &&& r.max_queue_size == q.max_queue_size
                &&& forall|j: int|
                    0 <= j < before.projects.len() && j != t ==> #[trigger] after.projects[j]
                        == before.projects[j]
            },
{
    law_when_an_eviction_is_due(before);
    if before.should_evict() {
        let t = before.eviction_target();
        law_eviction_spares_everyone_else(before);
        law_whom_an_eviction_strikes(before, t);
        let q = before.projects[t];
        assert(after.projects[t].items =~= q.items.subrange(0, q.items.len() - 1));
    }
}

/// What a request gets with its slot: the permit names its project, it is the
/// oldest of its queue, and the numbers are those that stand after it.
pub proof fn law_what_comes_with_a_slot<T>(s: StateView<T>, i: int, dispatch: Dispatch<T>)
    ensures
        dispatch.offered(s, i) <==> {
            &&& dispatch.permit@ == s.projects[i].name
            &&& dispatch.item == s.projects[i].items[0]
            &&& dispatch.queue_size + 1 == s.projects[i].items.len()
            &&& dispatch.in_flight == s.projects[i].in_flight + 1
            &&& dispatch.slots_in_use == s.in_flight + 1
        },
{
}

/// A step hands the oldest request of the chosen queue over, and says what came
/// of that.
pub proof fn law_what_is_handed_over<T, F: Fn(Dispatch<T>) -> bool>(
    deliver: F,
    s: StateView<T>,
    step: DrainStep,
)
    ensures
        handed_over(deliver, s, step) ==> exists|d: Dispatch<T>|
            {
                &&& #[trigger] deliver.ensures((d,), step.delivered)
                &&& d.permit@ == s.projects[step.position as int].name
                &&& d.item == s.projects[step.position as int].items[0]
            },
{
    if handed_over(deliver, s, step) {
        let d = choose|d: Dispatch<T>| #[trigger]
            d.offered(s, step.position as int) && deliver.ensures((d,), step.delivered);
        assert(deliver.ensures((d,), step.delivered));
    }
}

/// A scheduler knows a name exactly where a project has it, and finds the
/// project of that name.
pub proof fn law_projects_are_found_by_name<T>(s: StateView<T>, name: Seq<char>, i: int)
    requires
        forall|a: int, b: int|
            0 <= a < b < s.projects.len() ==> (#[trigger] s.projects[a]).name != (
            #[trigger] s.projects[b]).name,
    ensures
        s.has_project(name) <==> exists|k: int|
            0 <= k < s.projects.len() && (#[trigger] s.projects[k]).name == name,
        0 <= i < s.projects.len() && s.projects[i].name == name ==> s.position_of(name) == i,
{
    if 0 <= i < s.projects.len() && s.projects[i].name == name {
        let c = s.position_of(name);
        assert(s.projects[c].name == name);
    }
}

/// A request that arrives joins the end of its project's queue where there is
/// room for it. Where there is none, or nobody has that name, nothing changes.
pub proof fn law_what_an_arrival_does<T>(s: StateView<T>, name: Seq<char>, item: T, i: int)
    requires
        forall|a: int, b: int|
            0 <= a < b < s.projects.len() ==> (#[trigger] s.projects[a]).name != (
            #[trigger] s.projects[b]).name,
    ensures
        ({
            let after = next_state(s, Event::Arrival(name, item));
            let q = s.projects[i];
            let r = after.projects[i];
            &&& (forall|k: int|
                0 <= k < s.projects.len() ==> (#[trigger] s.projects[k]).name != name) ==> after
                == s
            &&& 0 <= i < s.projects.len() && q.name == name && q.items.len() >= q.max_queue_size
                ==> after == s
            &&& 0 <= i < s.projects.len() && q.name == name && q.items.len() < q.max_queue_size
                ==> {
                &&& after.in_flight == s.in_flight
                &&& after.slots == s.slots
                &&& after.projects.len() == s.projects.len()
                &&& forall|j: int|
                    0 <= j < s.projects.len() && j != i ==> #[trigger] after.projects[j]
                        == s.projects[j]
                &&& r.items == q.items.push(item)
                &&& r.in_flight == q.in_flight
                &&& r.name == q.name
                &&& r.priority == q.priority
                &&& r.share == q.share
                &&& r.max_slots == q.max_slots
                &&& r.max_queue_size == q.max_queue_size
            }
        }),
{
    law_projects_are_found_by_name(s, name, i);
}

/// A slot that is given back counts one less for its project and for the
/// gateway, and never less than none. Nothing else changes.
pub proof fn law_what_a_return_does<T>(s: StateView<T>, name: Seq<char>, i: int)
    requires
        forall|a: int, b: int|
            0 <= a < b < s.projects.len() ==> (#[trigger] s.projects[a]).name != (
            #[trigger] s.projects[b]).name,
    ensures
        next_state(s, Event::Return(name)) == s.released(name),
        ({
            let after = s.released(name);
            let q = s.projects[i];
            let r = after.projects[i];
            &&& after.slots == s.slots
            &&& after.in_flight == if s.in_flight > 0 {
                s.in_flight - 1
            } else {
                0
            }
            &&& after.projects.len() == s.projects.len()
            &&& 0 <= i < s.projects.len() && q.name != name ==> r == q
            &&& 0 <= i < s.projects.len() && q.name == name ==> {
                &&& r.in_flight == if q.in_flight > 0 {
                    q.in_flight - 1
                } else {
                    0
                }
                &&& r.items == q.items
                &&& r.name == q.name
                &&& r.priority == q.priority
                &&& r.share == q.share
                &&& r.max_slots == q.max_slots
                &&& r.max_queue_size == q.max_queue_size
            }
        }),
{
    law_projects_are_found_by_name(s, name, i);
    if s.has_project(name) {
        let c = s.position_of(name);
        assert(s.projects[c].name == name);
    }
}

/// When slots have been handed out, an eviction follows exactly where all slots
/// are taken and a more important project has requests in its queue beside a less
/// important one that has.
pub proof fn law_what_a_hand_out_does<T>(s: StateView<T>, steps: Seq<DrainStep>)
    ensures
        ({
            let handed_out = s.after(steps);
            let after = next_state(s, Event::HandOut(steps));
            let due = handed_out.in_flight >= handed_out.slots && exists|i: int, j: int|
                #![trigger handed_out.projects[i], handed_out.projects[j]]
                0 <= i < handed_out.projects.len() && 0 <= j < handed_out.projects.len()
                    && handed_out.projects[i].items.len() > 0
                    && handed_out.projects[j].items.len() > 0 && handed_out.projects[i].priority
                    < handed_out.projects[j].priority;
            &&& !due ==> after == handed_out
            &&& due ==> after == handed_out.evicted(handed_out.eviction_target())
        }),
{
    law_when_an_eviction_is_due(s.after(steps));
}

/// The state is in order exactly where no two projects have one name, no project
/// holds more slots than its cap or queues more requests than its limit, and no
/// more slots are taken than there are.
pub proof fn law_what_in_order_means<T>(s: StateView<T>)
    ensures
        s.wf() <==> {
            &&& forall|a: int, b: int|
                0 <= a < b < s.projects.len() ==> (#[trigger] s.projects[a]).name != (
                #[trigger] s.projects[b]).name
            &&& forall|i: int|
                0 <= i < s.projects.len() ==> {
                    &&& (#[trigger] s.projects[i]).in_flight <= s.projects[i].max_slots
                    &&& s.projects[i].items.len() <= s.projects[i].max_queue_size
                }
            &&& s.in_flight <= s.slots
        },
{
}

proof fn lemma_sum_is_fold<A>(v: Seq<A>, f: spec_fn(A) -> nat)
    ensures
        sum_of(v, f) == v.fold_left(0nat, |sum: nat, x: A| sum + f(x)),
    decreases v.len(),
{
    if v.len() > 0 {
        lemma_sum_is_fold(v.drop_last(), f);
    }
}

/// The requests that wait and the slots that are taken are those of all
/// projects together.
pub proof fn law_counts_are_those_of_all_projects<T>(s: StateView<T>)
    ensures
        s.queued() == s.projects.fold_left(
            0nat,
            |sum: nat, q: QueueView<T>| sum + q.items.len(),
        ),
        s.balanced() <==> s.in_flight == s.projects.fold_left(
            0nat,
            |sum: nat, q: QueueView<T>| sum + q.in_flight as nat,
        ),
{
    let items = |q: QueueView<T>| q.items.len();
    let slots = |q: QueueView<T>| q.in_flight as nat;
    lemma_sum_is_fold(s.projects, items);
    lemma_sum_is_fold(s.projects, slots);
    let add_items = |sum: nat, q: QueueView<T>| sum + items(q);
    let add_slots = |sum: nat, q: QueueView<T>| sum + slots(q);
    assert(add_items =~= |sum: nat, q: QueueView<T>| sum + q.items.len());
    assert(add_slots =~= |sum: nat, q: QueueView<T>| sum + q.in_flight as nat);
}

/// A scheduler starts with the projects of its configuration, in their order:
/// each with its rank and share, its own cap or else all slots, room for five
/// hundred requests, nobody waiting and no slot taken.
pub proof fn law_how_a_scheduler_starts<T>(config: ProxyConfig, i: int)
    requires
        0 <= i < config.projects@.len(),
    ensures
        ({
            let s = initial_state::<T>(config);
            let p = config.projects@[i].1;
            let q = s.projects[i];
            &&& s.projects.len() == config.projects@.len()
            &&& s.in_flight == 0
            &&& s.slots == config.slots
            &&& q.name == config.projects@[i].0
            &&& q.items.len() == 0
            &&& q.priority == p.priority
            &&& q.share == p.share
            &&& q.in_flight == 0
            &&& q.max_queue_size == 500
            &&& p.max_slots is None ==> q.max_slots == config.slots
            &&& p.max_slots matches Some(m) ==> q.max_slots == m
        }),
        MAX_QUEUE_SIZE == 500,
{
}

/// Every error says what happened, and to which project.
pub proof fn law_queue_errors_name_the_project(name: String)
    ensures
        QueueError::QueueFull(name).text() == "Queue is full for project: "@ + name@,
        QueueError::Evicted(name).text()
            == "Request evicted due to higher priority traffic (project: "@ + name@ + ")"@,
        QueueError::Timeout(name).text() == "Request timeout for project: "@ + name@,
        QueueError::UnknownProject(name).text() == "Unknown project: "@ + name@,
{
}

} // verus!
