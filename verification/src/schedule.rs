//! The scheduling rules, stated over plain sequences: who may be served next,
//! who is evicted, and what each operation does to the queues.
use vstd::prelude::*;
use crate::config::ProxyConfig;
use crate::name_map::distinct_names;

verus! {

/// How many requests of one project may wait.
pub const MAX_QUEUE_SIZE: usize = 500;

/// One project's queue. The oldest request stands first.
#[verifier::ext_equal]
pub struct QueueView<T> {
    pub name: Seq<char>,
    pub items: Seq<T>,
    pub priority: u32,
    pub share: u32,
    pub max_slots: usize,
    pub in_flight: usize,
    pub max_queue_size: usize,
}

/// All queues, and how many of the slots are taken.
#[verifier::ext_equal]
pub struct StateView<T> {
    pub projects: Seq<QueueView<T>>,
    pub in_flight: usize,
    pub slots: usize,
}

/// The sum of `f` over a sequence.
pub open spec fn sum_of<A>(s: Seq<A>, f: spec_fn(A) -> nat) -> nat
    decreases s.len(),
{
    if s.len() == 0 {
        0
    } else {
        sum_of(s.drop_last(), f) + f(s.last())
    }
}

/// Replacing one element changes the sum by the difference of the two.
pub proof fn lemma_sum_update<A>(s: Seq<A>, i: int, x: A, f: spec_fn(A) -> nat)
    requires
        0 <= i < s.len(),
    ensures
        sum_of(s.update(i, x), f) + f(s[i]) == sum_of(s, f) + f(x),
    decreases s.len(),
{
    if i == s.len() - 1 {
        assert(s.update(i, x).drop_last() == s.drop_last());
    } else {
        assert(s.update(i, x).drop_last() == s.drop_last().update(i, x));
        lemma_sum_update(s.drop_last(), i, x, f);
    }
}

/// A sum is at least each of its terms.
pub proof fn lemma_sum_at_least<A>(s: Seq<A>, i: int, f: spec_fn(A) -> nat)
    requires
        0 <= i < s.len(),
    ensures
        f(s[i]) <= sum_of(s, f),
    decreases s.len(),
{
    if i < s.len() - 1 {
        assert(s.drop_last()[i] == s[i]);
        lemma_sum_at_least(s.drop_last(), i, f);
    }
}

/// One step of handing out slots: whose request was taken, and whether it
/// could still be delivered.
pub struct DrainStep {
    pub position: usize,
    pub delivered: bool,
}

impl<T> StateView<T> {
    /// Whether there is a project of this name.
    pub open spec fn has_project(self, name: Seq<char>) -> bool {
        exists|i: int| 0 <= i < self.projects.len() && (#[trigger] self.projects[i]).name == name
    }

    /// The position of the project of this name, where there is one.
    pub open spec fn position_of(self, name: Seq<char>) -> int {
        choose|i: int| 0 <= i < self.projects.len() && (#[trigger] self.projects[i]).name == name
    }

    /// No name occurs twice, no project is over its cap or its queue limit, and
    /// no more slots are taken than there are.
    pub open spec fn wf(self) -> bool {
        &&& forall|i: int, j: int|
            0 <= i < j < self.projects.len() ==> (#[trigger] self.projects[i]).name != (
            #[trigger] self.projects[j]).name
        &&& forall|i: int|
            0 <= i < self.projects.len() ==> (#[trigger] self.projects[i]).in_flight
                <= self.projects[i].max_slots
        &&& forall|i: int|
            0 <= i < self.projects.len() ==> (#[trigger] self.projects[i]).items.len()
                <= self.projects[i].max_queue_size
        &&& self.in_flight <= self.slots
    }

    /// The slots taken are those that the projects hold.
    pub open spec fn balanced(self) -> bool {
        self.in_flight == sum_of(self.projects, |q: QueueView<T>| q.in_flight as nat)
    }

    /// How many requests wait, over all projects.
    pub open spec fn queued(self) -> nat {
        sum_of(self.projects, |q: QueueView<T>| q.items.len())
    }

    /// Whether the project at position `i` has waiting requests.
    pub open spec fn waiting(self, i: int) -> bool {
        0 <= i < self.projects.len() && self.projects[i].items.len() > 0
    }

    /// Whether the project at position `i` has waiting requests and is below its cap.
    pub open spec fn eligible(self, i: int) -> bool {
        self.waiting(i) && self.projects[i].in_flight < self.projects[i].max_slots
    }

    /// Whether the project at position `i` has waiting requests and no project
    /// that waits is more important.
    pub open spec fn leads(self, i: int) -> bool {
        &&& self.waiting(i)
        &&& forall|j: int| #[trigger]
            self.waiting(j) ==> self.projects[i].priority <= self.projects[j].priority
    }

    /// Whether the project at position `i` is below its cap and in the most
    /// important tier that waits.
    pub open spec fn in_top_tier(self, i: int) -> bool {
        self.eligible(i) && self.leads(i)
    }

    /// The weight of the project at position `i` in the next choice.
    pub open spec fn weight(self, i: int) -> nat {
        if self.in_top_tier(i) {
            self.projects[i].share as nat
        } else {
            0
        }
    }

    /// The weight of the first `n` projects in the next choice.
    pub open spec fn weight_before(self, n: int) -> nat
        decreases n,
    {
        if n <= 0 {
            0
        } else {
            self.weight_before(n - 1) + self.weight(n - 1)
        }
    }

    /// The weight of all projects in the next choice.
    pub open spec fn total_weight(self) -> nat {
        self.weight_before(self.projects.len() as int)
    }

    /// Whether the number `pick` falls to the project at position `i`.
    pub open spec fn selects(self, pick: nat, i: int) -> bool {
        &&& 0 <= i < self.projects.len()
        &&& self.weight_before(i) <= pick < self.weight_before(i) + self.weight(i)
    }

    /// Whether all slots are taken.
    pub open spec fn full(self) -> bool {
        self.in_flight >= self.slots
    }

    /// Whether a more important project waits beside a less important one that
    /// waits.
    pub open spec fn should_evict(self) -> bool {
        exists|i: int, j: int|
            #![trigger self.waiting(i), self.waiting(j)]
            self.waiting(i) && self.waiting(j) && self.projects[i].priority
                < self.projects[j].priority
    }

    /// Whether the project at position `i` is the one to evict from: the least
    /// important that waits, among those the one with the lowest share, and
    /// among those the first.
    pub open spec fn is_eviction_target(self, i: int) -> bool {
        &&& self.waiting(i)
        &&& forall|j: int| #[trigger]
            self.waiting(j) ==> {
                ||| self.projects[j].priority < self.projects[i].priority
                ||| {
                    &&& self.projects[j].priority == self.projects[i].priority
                    &&& self.projects[j].share >= self.projects[i].share
                    &&& j < i ==> self.projects[j].share > self.projects[i].share
                }
            }
    }

    /// The project to evict from, where some project waits.
    pub open spec fn eviction_target(self) -> int {
        choose|i: int| self.is_eviction_target(i)
    }

    /// The state with another queue at position `i`.
    pub open spec fn with_queue(self, i: int, q: QueueView<T>) -> StateView<T> {
        StateView { projects: self.projects.update(i, q), ..self }
    }

    /// The state after a request has joined the queue at position `i`.
    pub open spec fn enqueued(self, i: int, item: T) -> StateView<T> {
        let q = self.projects[i];
        self.with_queue(i, QueueView { items: q.items.push(item), ..q })
    }

    /// The state after the oldest request at position `i` has got a slot.
    pub open spec fn granted(self, i: int) -> StateView<T> {
        let q = self.projects[i];
        let taken = self.with_queue(
            i,
            QueueView {
                items: q.items.drop_first(),
                in_flight: (q.in_flight + 1) as usize,
                ..q
            },
        );
        StateView { in_flight: (self.in_flight + 1) as usize, ..taken }
    }

    /// The state after the oldest request at position `i` has left without a slot.
    pub open spec fn discarded(self, i: int) -> StateView<T> {
        let q = self.projects[i];
        self.with_queue(i, QueueView { items: q.items.drop_first(), ..q })
    }

    /// The state after the newest request at position `i` has been evicted.
    pub open spec fn evicted(self, i: int) -> StateView<T> {
        let q = self.projects[i];
        self.with_queue(i, QueueView { items: q.items.drop_last(), ..q })
    }

    /// One less, but not below zero.
    pub open spec fn one_less(n: usize) -> usize {
        if n > 0 {
            (n - 1) as usize
        } else {
            0
        }
    }

    /// The state after a slot of the named project has been given back.
    pub open spec fn released(self, name: Seq<char>) -> StateView<T> {
        let projects = if self.has_project(name) {
            let i = self.position_of(name);
            let q = self.projects[i];
            self.projects.update(i, QueueView { in_flight: Self::one_less(q.in_flight), ..q })
        } else {
            self.projects
        };
        StateView { projects, in_flight: Self::one_less(self.in_flight), ..self }
    }

    /// Whether a slot may go to the project at position `i` now.
    pub open spec fn may_serve(self, i: int) -> bool {
        !self.full() && self.in_top_tier(i) && self.projects[i].share > 0
    }

    /// The state after one step of handing out slots.
    pub open spec fn stepped(self, step: DrainStep) -> StateView<T> {
        if step.delivered {
            self.granted(step.position as int)
        } else {
            self.discarded(step.position as int)
        }
    }

    /// The state after a series of steps.
    pub open spec fn after(self, steps: Seq<DrainStep>) -> StateView<T>
        decreases steps.len(),
    {
        if steps.len() == 0 {
            self
        } else {
            self.after(steps.drop_last()).stepped(steps.last())
        }
    }

    /// Whether each of the steps was one that the rules allow.
    pub open spec fn lawful(self, steps: Seq<DrainStep>) -> bool {
        forall|k: int|
            0 <= k < steps.len() ==> #[trigger] self.after(steps.take(k)).may_serve(
                steps[k].position as int,
            )
    }

    /// Whether nothing more can be handed out: all slots are taken, or nobody
    /// can be chosen.
    pub open spec fn settled(self) -> bool {
        self.full() || self.total_weight() == 0
    }
}

impl<T> StateView<T> {
    /// Where nobody is a candidate, nobody has a weight.
    pub proof fn lemma_no_weight(self, n: int)
        requires
            forall|i: int| !self.in_top_tier(i),
        ensures
            self.weight_before(n) == 0,
        decreases n,
    {
        if n > 0 {
            self.lemma_no_weight(n - 1);
        }
    }

    /// More projects weigh no less.
    pub proof fn lemma_weight_monotone(self, a: int, b: int)
        requires
            a <= b,
        ensures
            self.weight_before(a) <= self.weight_before(b),
        decreases b - a,
    {
        if a < b && b > 0 {
            self.lemma_weight_monotone(a, b - 1);
        }
    }

    /// Adding a step to a series.
    pub proof fn lemma_after_push(self, steps: Seq<DrainStep>, step: DrainStep)
        ensures
            self.after(steps.push(step)) == self.after(steps).stepped(step),
            self.lawful(steps) && self.after(steps).may_serve(step.position as int)
                ==> self.lawful(steps.push(step)),
            forall|k: int|
                0 <= k <= steps.len() ==> #[trigger] steps.push(step).take(k) == steps.take(k),
    {
        let more = steps.push(step);
        assert(more.drop_last() == steps);
        assert forall|k: int| 0 <= k <= steps.len() implies #[trigger] more.take(k) == steps.take(
            k,
        ) by {
            assert(more.take(k) =~= steps.take(k));
        }
        if self.lawful(steps) && self.after(steps).may_serve(step.position as int) {
            assert forall|k: int| 0 <= k < more.len() implies #[trigger] self.after(
                more.take(k),
            ).may_serve(more[k].position as int) by {
                assert(more.take(k) == steps.take(k));
                if k == steps.len() {
                    assert(steps.take(k) =~= steps);
                } else {
                    assert(self.after(steps.take(k)).may_serve(steps[k].position as int));
                }
            }
        }
    }

    /// Joining a queue that has room keeps everything in order.
    pub proof fn lemma_enqueued(self, i: int, item: T)
        requires
            self.wf(),
            0 <= i < self.projects.len(),
            self.projects[i].items.len() < self.projects[i].max_queue_size,
        ensures
            self.enqueued(i, item).wf(),
            self.balanced() ==> self.enqueued(i, item).balanced(),
    {
        let q = self.projects[i];
        lemma_sum_update(
            self.projects,
            i,
            QueueView { items: q.items.push(item), ..q },
            |q: QueueView<T>| q.in_flight as nat,
        );
    }

    /// A lawful step keeps everything in order, and one request fewer waits.
    pub proof fn lemma_stepped(self, step: DrainStep)
        requires
            self.wf(),
            self.may_serve(step.position as int),
        ensures
            self.stepped(step).wf(),
            self.balanced() ==> self.stepped(step).balanced(),
            self.stepped(step).queued() + 1 == self.queued(),
    {
        let i = step.position as int;
        let x = self.stepped(step).projects[i];
        assert(self.stepped(step).projects == self.projects.update(i, x));
        lemma_sum_update(self.projects, i, x, |q: QueueView<T>| q.in_flight as nat);
        lemma_sum_update(self.projects, i, x, |q: QueueView<T>| q.items.len());
    }

    /// Evicting keeps everything in order, and one request fewer waits.
    pub proof fn lemma_evicted(self, i: int)
        requires
            self.wf(),
            self.waiting(i),
        ensures
            self.evicted(i).wf(),
            self.balanced() ==> self.evicted(i).balanced(),
            self.evicted(i).queued() + 1 == self.queued(),
    {
        let q = self.projects[i];
        let x = QueueView { items: q.items.drop_last(), ..q };
        lemma_sum_update(self.projects, i, x, |q: QueueView<T>| q.in_flight as nat);
        lemma_sum_update(self.projects, i, x, |q: QueueView<T>| q.items.len());
    }

    /// An eviction is due exactly where the most important tier that waits is
    /// more important than the project to evict from.
    pub proof fn lemma_should_evict(self, top: int, target: int)
        requires
            self.leads(top),
            self.is_eviction_target(target),
        ensures
            self.should_evict() <==> self.projects[top].priority < self.projects[target].priority,
    {
        if self.should_evict() {
            let (i, j) = choose|i: int, j: int|
                #![trigger self.waiting(i), self.waiting(j)]
                self.waiting(i) && self.waiting(j) && self.projects[i].priority
                    < self.projects[j].priority;
            assert(self.projects[top].priority <= self.projects[i].priority);
        }
        if self.projects[top].priority < self.projects[target].priority {
            assert(self.waiting(top) && self.waiting(target));
        }
    }

    /// Names are unique, so a name leads back to its position.
    pub proof fn lemma_position(self, i: int)
        requires
            self.wf(),
            0 <= i < self.projects.len(),
        ensures
            self.has_project(self.projects[i].name),
            self.position_of(self.projects[i].name) == i,
    {
        let c = self.position_of(self.projects[i].name);
        assert(self.projects[c].name == self.projects[i].name);
    }

    /// Giving a slot back keeps everything in order.
    pub proof fn lemma_released(self, name: Seq<char>)
        requires
            self.wf(),
        ensures
            self.released(name).wf(),
            self.balanced() && self.has_project(name) && self.projects[self.position_of(
                name,
            )].in_flight > 0 ==> self.released(name).balanced(),
    {
        if self.has_project(name) {
            let i = self.position_of(name);
            assert(self.projects[i].name == name);
            let x = self.released(name).projects[i];
            let f = |q: QueueView<T>| q.in_flight as nat;
            lemma_sum_update(self.projects, i, x, f);
            lemma_sum_at_least(self.projects, i, f);
        }
    }

    /// There is only one project to evict from.
    pub proof fn lemma_one_eviction_target(self, i: int)
        requires
            self.is_eviction_target(i),
        ensures
            self.eviction_target() == i,
    {
        let c = self.eviction_target();
        assert(self.is_eviction_target(c));
        assert(self.waiting(i) && self.waiting(c));
    }
}

/// Something that happens to a scheduler.
pub enum Event<T> {
    /// A request of the named project arrives
    Arrival(Seq<char>, T),
    /// Slots are handed out, in these steps
    HandOut(Seq<DrainStep>),
    /// A slot of the named project is given back
    Return(Seq<char>),
}

/// The state after something has happened.
pub open spec fn next_state<T>(s: StateView<T>, event: Event<T>) -> StateView<T> {
    match event {
        Event::Arrival(name, item) => {
            let i = s.position_of(name);
            if s.has_project(name) && s.projects[i].items.len() < s.projects[i].max_queue_size {
                s.enqueued(i, item)
            } else {
                s
            }
        },
        Event::HandOut(steps) => {
            let handed_out = s.after(steps);
            if handed_out.full() && handed_out.should_evict() {
                handed_out.evicted(handed_out.eviction_target())
            } else {
                handed_out
            }
        },
        Event::Return(name) => s.released(name),
    }
}

/// The queue of a project at the start.
pub open spec fn initial_queue<T>(config: ProxyConfig, i: int) -> QueueView<T> {
    let p = config.projects@[i].1;
    QueueView {
        name: config.projects@[i].0,
        items: Seq::empty(),
        priority: p.priority,
        share: p.share,
        max_slots: config.max_slots_of(p),
        in_flight: 0,
        max_queue_size: MAX_QUEUE_SIZE,
    }
}

/// The state at the start: every project of the configuration, with nobody
/// waiting and no slot taken.
pub open spec fn initial_state<T>(config: ProxyConfig) -> StateView<T> {
    StateView {
        projects: Seq::new(config.projects@.len(), |i: int| initial_queue::<T>(config, i)),
        in_flight: 0,
        slots: config.slots,
    }
}

/// A sum of zeros is zero.
pub proof fn lemma_sum_zero<A>(s: Seq<A>, f: spec_fn(A) -> nat)
    requires
        forall|i: int| 0 <= i < s.len() ==> f(#[trigger] s[i]) == 0,
    ensures
        sum_of(s, f) == 0,
    decreases s.len(),
{
    if s.len() > 0 {
        assert forall|i: int| 0 <= i < s.drop_last().len() implies f(
            #[trigger] s.drop_last()[i],
        ) == 0 by {
            assert(s.drop_last()[i] == s[i]);
        }
        lemma_sum_zero(s.drop_last(), f);
        assert(f(s[s.len() - 1]) == 0);
    }
}

/// The start is in order.
pub proof fn lemma_initial_state<T>(config: &ProxyConfig)
    requires
        distinct_names(config.projects@),
    ensures
        initial_state::<T>(*config).wf(),
        initial_state::<T>(*config).balanced(),
        initial_state::<T>(*config).queued() == 0,
{
    let s = initial_state::<T>(*config);
    lemma_sum_zero(s.projects, |q: QueueView<T>| q.in_flight as nat);
    lemma_sum_zero(s.projects, |q: QueueView<T>| q.items.len());
    assert forall|i: int, j: int| 0 <= i < j < s.projects.len() implies (
    #[trigger] s.projects[i]).name != (#[trigger] s.projects[j]).name by {
        assert(config.projects@[i].0 != config.projects@[j].0);
    }
}

} // verus!
