//! Project queues and the dispatch of inference slots.
use rand::Rng;
use std::collections::VecDeque;
use std::sync::Arc;
use std::time::Duration;
use vstd::prelude::*;
use vstd::string::*;
use crate::config::ProxyConfig;
use crate::name_map::{has_name, index_of_name};
use crate::schedule::{
    initial_queue, initial_state, lemma_initial_state, next_state, DrainStep, Event, QueueView,
    StateView, MAX_QUEUE_SIZE,
};
use crate::text::same;

verus! {

/// One project's queue.
pub struct ProjectQueue<T> {
    name: String,
    items: VecDeque<T>,
    priority: u32,
    share: u32,
    max_slots: usize,
    in_flight: usize,
    max_queue_size: usize,
}

impl<T> View for ProjectQueue<T> {
    type V = QueueView<T>;

    closed spec fn view(&self) -> QueueView<T> {
        QueueView {
            name: self.name@,
            items: self.items@,
            priority: self.priority,
            share: self.share,
            max_slots: self.max_slots,
            in_flight: self.in_flight,
            max_queue_size: self.max_queue_size,
        }
    }
}

/// All queues, and how many of the slots are taken.
pub struct SchedulerState<T> {
    projects: Vec<ProjectQueue<T>>,
    global_in_flight: usize,
    global_slots: usize,
}

impl<T> View for SchedulerState<T> {
    type V = StateView<T>;

    closed spec fn view(&self) -> StateView<T> {
        StateView {
            projects: self.projects@.map_values(|q: ProjectQueue<T>| q@),
            in_flight: self.global_in_flight,
            slots: self.global_slots,
        }
    }
}

/// `rand::Rng::gen_range` on `rand::thread_rng()`: a number of the half-open
/// range from zero to `bound`. Which one, chance decides.
#[verifier::external_body]
fn random_below(bound: u128) -> (r: u128)
    requires
        bound > 0,
    ensures
        r < bound,
{
    rand::thread_rng().gen_range(0..bound)
}

/// Whether `n` is a number that the draw below `bound` can give.
pub closed spec fn may_be_drawn(bound: u128, n: u128) -> bool {
    call_ensures(random_below, (bound,), n)
}

/// What can be drawn is what the generator gives, unchanged, and lies below the
/// bound.
proof fn law_the_draw_is_taken_as_it_comes(bound: u128, n: u128)
    ensures
        may_be_drawn(bound, n) <==> call_ensures(random_below, (bound,), n),
        may_be_drawn(bound, n) ==> n < bound,
{
}

/// Whether a number that can be drawn below the weight of all candidates falls
/// to the project at position `i`.
pub open spec fn picked_by_draw<T>(state: StateView<T>, i: int) -> bool {
    exists|n: u128| #[trigger]
        may_be_drawn(state.total_weight() as u128, n) && state.selects(n as nat, i)
}

impl<T> SchedulerState<T> {
    /// The most important tier that waits.
    fn top_tier(&self) -> (r: Option<u32>)
        ensures
            r is None <==> forall|i: int| !self@.waiting(i),
            r matches Some(p) ==> {
                &&& exists|i: int| self@.leads(i)
                &&& forall|i: int| #[trigger]
                    self@.leads(i) <==> self@.waiting(i) && self@.projects[i].priority == p
            },
    {
        let mut best: Option<u32> = None;
        let mut i: usize = 0;
        while i < self.projects.len()
            invariant
                i <= self.projects@.len(),
                best is None ==> forall|k: int| 0 <= k < i ==> !self@.waiting(k),
                best matches Some(p) ==> {
                    &&& forall|k: int|
                        0 <= k < i && self@.waiting(k) ==> p <= self@.projects[k].priority
                    &&& exists|k: int|
                        0 <= k < i && self@.waiting(k) && self@.projects[k].priority == p
                },
            decreases self.projects.len() - i,
        {
            let q = &self.projects[i];
            assert(q@ == self@.projects[i as int]);
            if q.items.len() > 0 {
                assert(self@.waiting(i as int));
                match best {
                    Some(p) if p <= q.priority => {},
                    _ => {
                        best = Some(q.priority);
                    },
                }
            }
            i = i + 1;
        }
        proof {
            if let Some(p) = best {
                let k = choose|k: int|
                    0 <= k < i && self@.waiting(k) && self@.projects[k].priority == p;
                assert(self@.leads(k));
            }
        }
        best
    }

    /// Whether the project at position `i` is a candidate of the tier `tier`,
    /// and with what weight.
    fn weight_in(&self, i: usize, tier: u32) -> (r: u32)
        requires
            i < self@.projects.len(),
            forall|k: int| #[trigger]
                self@.leads(k) <==> self@.waiting(k) && self@.projects[k].priority == tier,
        ensures
            r == self@.weight(i as int),
    {
        let q = &self.projects[i];
        assert(q@ == self@.projects[i as int]);
        if q.items.len() == 0 || q.in_flight >= q.max_slots || q.priority != tier {
            0
        } else {
            q.share
        }
    }

    /// The weight of all candidates of the most important tier.
    pub fn total_weight(&self) -> (r: u128)
        ensures
            r == self@.total_weight(),
    {
        let tier = match self.top_tier() {
            Some(tier) => tier,
            None => {
                proof {
                    self@.lemma_no_weight(self@.projects.len() as int);
                }
                return 0;
            },
        };
        let mut total: u128 = 0;
        let mut i: usize = 0;
        while i < self.projects.len()
            invariant
                i <= self.projects@.len(),
                self.projects@.len() == self@.projects.len(),
                total == self@.weight_before(i as int),
                total <= i * 0xffff_ffff,
                forall|k: int| #[trigger]
                    self@.leads(k) <==> self@.waiting(k) && self@.projects[k].priority == tier,
            decreases self.projects.len() - i,
        {
            total = total + self.weight_in(i, tier) as u128;
            i = i + 1;
        }
        total
    }

    /// The position of the project that the number `pick` falls to, counting the
    /// candidates of the most important tier by their shares. No project where
    /// `pick` is not below the weight of all candidates.
    pub fn pick_with(&self, pick: u128) -> (r: Option<usize>)
        ensures
            r is None <==> pick >= self@.total_weight(),
            r matches Some(i) ==> self@.selects(pick as nat, i as int),
    {
        let tier = match self.top_tier() {
            Some(tier) => tier,
            None => {
                proof {
                    self@.lemma_no_weight(self@.projects.len() as int);
                }
                return None;
            },
        };
        let mut rest: u128 = pick;
        let mut i: usize = 0;
        while i < self.projects.len()
            invariant
                i <= self.projects@.len(),
                self.projects@.len() == self@.projects.len(),
                pick == rest + self@.weight_before(i as int),
                forall|k: int| #[trigger]
                    self@.leads(k) <==> self@.waiting(k) && self@.projects[k].priority == tier,
            decreases self.projects.len() - i,
        {
            let weight = self.weight_in(i, tier) as u128;
            if rest < weight {
                proof {
                    self@.lemma_weight_monotone(i + 1, self@.projects.len() as int);
                }
                return Some(i);
            }
            rest = rest - weight;
            i = i + 1;
        }
        None
    }

    /// Picks the next project to dispatch from: strict priority across tiers,
    /// weighted random within a tier. While a tier waits, no tier below it is
    /// picked from, even where all its projects are at their caps.
    pub fn pick_next(&self) -> (r: Option<usize>)
        ensures
            r is None <==> self@.total_weight() == 0,
            r matches Some(i) ==> {
                &&& self@.in_top_tier(i as int)
                &&& self@.projects[i as int].share > 0
                &&& exists|n: u128| #[trigger]
                    may_be_drawn(self@.total_weight() as u128, n) && n < self@.total_weight()
                        && self@.selects(n as nat, i as int)
            },
    {
        let total = self.total_weight();
        if total == 0 {
            return None;
        }
        let drawn = random_below(total);
        assert(may_be_drawn(self@.total_weight() as u128, drawn));
        self.pick_with(drawn)
    }

    /// The position of the project to evict from: the least important tier that
    /// waits, and within it the lowest share.
    pub fn pick_eviction_target(&self) -> (r: Option<usize>)
        ensures
            r is None <==> forall|i: int| !self@.waiting(i),
            r matches Some(i) ==> self@.is_eviction_target(i as int) && i
                == self@.eviction_target(),
    {
        let mut worst: Option<usize> = None;
        let mut i: usize = 0;
        while i < self.projects.len()
            invariant
                i <= self.projects@.len(),
                worst is None ==> forall|k: int| 0 <= k < i ==> !self@.waiting(k),
                worst matches Some(w) ==> {
                    &&& w < i
                    &&& self@.waiting(w as int)
                    &&& forall|j: int|
                        0 <= j < i && #[trigger] self@.waiting(j) ==> {
                            ||| self@.projects[j].priority < self@.projects[w as int].priority
                            ||| {
                                &&& self@.projects[j].priority == self@.projects[w as int].priority
                                &&& self@.projects[j].share >= self@.projects[w as int].share
                                &&& j < w ==> self@.projects[j].share
                                    > self@.projects[w as int].share
                            }
                        }
                },
            decreases self.projects.len() - i,
        {
            let q = &self.projects[i];
            assert(q@ == self@.projects[i as int]);
            if q.items.len() > 0 {
                assert(self@.waiting(i as int));
                match worst {
                    None => {
                        worst = Some(i);
                    },
                    Some(w) => {
                        let other = &self.projects[w];
                        assert(other@ == self@.projects[w as int]);
                        if q.priority > other.priority || (q.priority == other.priority && q.share
                            < other.share) {
                            worst = Some(i);
                        }
                    },
                }
            }
            i = i + 1;
        }
        proof {
            if let Some(w) = worst {
                assert(self@.is_eviction_target(w as int));
                self@.lemma_one_eviction_target(w as int);
            }
        }
        worst
    }
}

/// Why a request got no slot.
#[derive(Debug)]
pub enum QueueError {
    QueueFull(String),
    Evicted(String),
    Timeout(String),
    UnknownProject(String),
}

impl QueueError {
    /// The text that describes the error.
    pub open spec fn text(self) -> Seq<char> {
        match self {
            QueueError::QueueFull(name) => "Queue is full for project: "@ + name@,
            QueueError::Evicted(name) =>
                "Request evicted due to higher priority traffic (project: "@ + name@ + ")"@,
            QueueError::Timeout(name) => "Request timeout for project: "@ + name@,
            QueueError::UnknownProject(name) => "Unknown project: "@ + name@,
        }
    }

    /// The text that describes the error.
    pub fn message(&self) -> (r: String)
        ensures
            r@ == self.text(),
    {
        match self {
            QueueError::QueueFull(name) => "Queue is full for project: ".to_owned().concat(
                name.as_str(),
            ),
            QueueError::Evicted(name) =>
                "Request evicted due to higher priority traffic (project: ".to_owned().concat(
                name.as_str(),
            ).concat(")"),
            QueueError::Timeout(name) => "Request timeout for project: ".to_owned().concat(
                name.as_str(),
            ),
            QueueError::UnknownProject(name) => "Unknown project: ".to_owned().concat(
                name.as_str(),
            ),
        }
    }
}

/// The right to occupy one slot of a project. It comes from a dispatch, and
/// giving it back frees the slot.
pub struct SlotPermit {
    project_name: String,
}

impl View for SlotPermit {
    type V = Seq<char>;

    closed spec fn view(&self) -> Seq<char> {
        self.project_name@
    }
}

impl SlotPermit {
    /// The project whose slot this is.
    pub fn project_name(&self) -> (r: &str)
        ensures
            r@ == self@,
    {
        self.project_name.as_str()
    }
}

/// A request that has got a slot, with the numbers that stand after that.
pub struct Dispatch<T> {
    pub permit: SlotPermit,
    pub item: T,
    /// How many requests of the project still wait
    pub queue_size: usize,
    /// How many slots the project holds
    pub in_flight: usize,
    /// How many slots are taken
    pub slots_in_use: usize,
}

/// A request that has been evicted from its queue.
pub struct Eviction<T> {
    pub project_name: String,
    pub item: T,
    /// How many requests of the project still wait
    pub queue_size: usize,
}

/// What one run of handing out slots did.
pub struct Drained<T> {
    pub steps: Vec<DrainStep>,
    pub evicted: Option<Eviction<T>>,
}

/// A slot that has been given back, with the numbers that stand after that.
pub struct Release {
    pub project_name: String,
    /// How many slots the project holds
    pub in_flight: usize,
    /// How many slots are taken
    pub slots_in_use: usize,
}

impl<T> Dispatch<T> {
    /// Whether this is what the project at position `i` gets in the given state.
    pub open spec fn offered(self, state: StateView<T>, i: int) -> bool {
        &&& self.permit@ == state.projects[i].name
        &&& self.item == state.projects[i].items[0]
        &&& self.queue_size == state.projects[i].items.len() - 1
        &&& self.in_flight == state.projects[i].in_flight + 1
        &&& self.slots_in_use == state.in_flight + 1
    }
}

impl<T> Eviction<T> {
    /// Whether this is what is evicted from the project at position `i` in the
    /// given state.
    pub open spec fn taken(self, state: StateView<T>, i: int) -> bool {
        &&& self.project_name@ == state.projects[i].name
        &&& self.item == state.projects[i].items.last()
        &&& self.queue_size == state.projects[i].items.len() - 1
    }
}

/// Whether an eviction took the state `before` to the state `after`, or none
/// was due and nothing changed.
pub open spec fn eviction_done<T>(
    before: StateView<T>,
    after: StateView<T>,
    r: Option<Eviction<T>>,
) -> bool {
    &&& r is Some <==> before.should_evict()
    &&& r matches Some(e) ==> {
        &&& before.is_eviction_target(before.eviction_target())
        &&& e.taken(before, before.eviction_target())
        &&& after == before.evicted(before.eviction_target())
    }
    &&& r is None ==> after == before
}

/// How the wait for a slot ended.
pub enum WaitOutcome<P> {
    /// The answer came
    Answered(Result<P, QueueError>),
    /// No answer can come any more
    Closed,
    /// The time ran out
    Elapsed,
}

/// How long a request of a project may take: the project's own limit, or the
/// default.
pub open spec fn request_timeout_of(config: ProxyConfig, name: Seq<char>) -> Duration {
    if has_name(config.projects@, name) {
        config.timeout_of(config.projects@[index_of_name(config.projects@, name)].1)
    } else {
        config.default_timeout
    }
}

/// Decides which request gets the next slot. The type `T` is whatever the
/// caller keeps for a waiting request.
pub struct ClassBasedScheduler<T> {
    state: SchedulerState<T>,
    config: Arc<ProxyConfig>,
}

impl<T> View for ClassBasedScheduler<T> {
    type V = StateView<T>;

    closed spec fn view(&self) -> StateView<T> {
        self.state@
    }
}

impl<T> ClassBasedScheduler<T> {
    /// The configuration that the scheduler was made with.
    pub closed spec fn settings(self) -> ProxyConfig {
        *self.config
    }

    /// A scheduler for the projects of a configuration: nobody waits, and no
    /// slot is taken.
    pub fn new(config: Arc<ProxyConfig>) -> (r: Self)
        ensures
            r.settings() == *config,
            r@ == initial_state::<T>(*config),
            r@.wf(),
            r@.balanced(),
    {
        let mut projects: Vec<ProjectQueue<T>> = Vec::new();
        let count = config.projects.len();
        let mut i: usize = 0;
        while i < count
            invariant
                i <= count,
                count == config.projects@.len(),
                projects@.len() == i,
                forall|k: int|
                    0 <= k < i ==> (#[trigger] projects@[k])@ == initial_queue::<T>(*config, k),
            decreases count - i,
        {
            let project = config.projects.value_at(i);
            projects.push(
                ProjectQueue {
                    name: config.projects.name_at(i).to_owned(),
                    items: VecDeque::new(),
                    priority: project.priority,
                    share: project.share,
                    max_slots: config.effective_max_slots(project),
                    in_flight: 0,
                    max_queue_size: MAX_QUEUE_SIZE,
                },
            );
            i = i + 1;
        }
        let slots = config.slots;
        let state = SchedulerState { projects, global_in_flight: 0, global_slots: slots };
        proof {
            assert(state@ == initial_state::<T>(*config));
            lemma_initial_state::<T>(&*config);
        }
        ClassBasedScheduler { state, config }
    }

    /// The queues as they stand.
    pub fn state(&self) -> (r: &SchedulerState<T>)
        ensures
            r@ == self@,
    {
        &self.state
    }

    /// The position of a project.
    fn position(&self, name: &str) -> (r: Option<usize>)
        requires
            self@.wf(),
        ensures
            r is Some <==> self@.has_project(name@),
            r matches Some(i) ==> {
                &&& i < self@.projects.len()
                &&& self@.projects[i as int].name == name@
                &&& i == self@.position_of(name@)
            },
    {
        let mut i: usize = 0;
        while i < self.state.projects.len()
            invariant
                i <= self@.projects.len(),
                self@.projects.len() == self.state.projects@.len(),
                self@.wf(),
                forall|k: int| 0 <= k < i ==> (#[trigger] self@.projects[k]).name != name@,
            decreases self.state.projects.len() - i,
        {
            assert(self.state.projects@[i as int]@ == self@.projects[i as int]);
            if same(self.state.projects[i].name.as_str(), name) {
                proof {
                    self@.lemma_position(i as int);
                }
                return Some(i);
            }
            i = i + 1;
        }
        None
    }

    /// Puts a request at the end of its project's queue, and says how many of
    /// the project wait then. A full queue refuses it.
    pub fn enqueue(&mut self, project_name: &str, item: T) -> (r: Result<usize, QueueError>)
        requires
            old(self)@.wf(),
        ensures
            final(self)@.wf(),
            final(self).settings() == old(self).settings(),
            old(self)@.balanced() ==> final(self)@.balanced(),
            !old(self)@.has_project(project_name@) ==> {
                &&& r matches Err(QueueError::UnknownProject(name)) && name@ == project_name@
                &&& final(self)@ == old(self)@
            },
            old(self)@.has_project(project_name@) ==> {
                let i = old(self)@.position_of(project_name@);
                let q = old(self)@.projects[i];
                if q.items.len() >= q.max_queue_size {
                    &&& r matches Err(QueueError::QueueFull(name)) && name@ == project_name@
                    &&& final(self)@ == old(self)@
                } else {
                    &&& r == Ok::<usize, QueueError>((q.items.len() + 1) as usize)
                    &&& final(self)@ == old(self)@.enqueued(i, item)
                }
            },
            final(self)@ == next_state(old(self)@, Event::Arrival(project_name@, item)),
    {
        let i = match self.position(project_name) {
            Some(i) => i,
            None => {
                return Err(QueueError::UnknownProject(project_name.to_owned()));
            },
        };
        assert(self.state.projects@[i as int]@ == self@.projects[i as int]);
        if self.state.projects[i].items.len() >= self.state.projects[i].max_queue_size {
            return Err(QueueError::QueueFull(project_name.to_owned()));
        }
        proof {
            self@.lemma_enqueued(i as int, item);
        }
        self.state.projects[i].items.push_back(item);
        assert(self@ == old(self)@.enqueued(i as int, item));
        Ok(self.state.projects[i].items.len())
    }

    /// Gives a slot to the oldest request of the project at position `i`.
    fn dispatch(&mut self, i: usize) -> (r: Dispatch<T>)
        requires
            old(self)@.wf(),
            old(self)@.may_serve(i as int),
        ensures
            final(self)@ == old(self)@.granted(i as int),
            final(self).settings() == old(self).settings(),
            r.offered(old(self)@, i as int),
    {
        assert(self.state.projects@[i as int]@ == self@.projects[i as int]);
        let item = self.state.projects[i].items.pop_front();
        self.state.projects[i].in_flight = self.state.projects[i].in_flight + 1;
        self.state.global_in_flight = self.state.global_in_flight + 1;
        assert(self@ == old(self)@.granted(i as int));
        let q = &self.state.projects[i];
        Dispatch {
            permit: SlotPermit { project_name: q.name.clone() },
            item: item.unwrap(),
            queue_size: q.items.len(),
            in_flight: q.in_flight,
            slots_in_use: self.state.global_in_flight,
        }
    }

    /// Takes back a slot from the project at position `i`.
    fn take_back(&mut self, i: usize)
        requires
            i < old(self)@.projects.len(),
            old(self)@.projects[i as int].in_flight > 0,
            old(self)@.in_flight > 0,
        ensures
            final(self)@ == (StateView {
                in_flight: (old(self)@.in_flight - 1) as usize,
                ..old(self)@.with_queue(
                    i as int,
                    QueueView {
                        in_flight: (old(self)@.projects[i as int].in_flight - 1) as usize,
                        ..old(self)@.projects[i as int]
                    },
                )
            }),
            final(self).settings() == old(self).settings(),
    {
        assert(self.state.projects@[i as int]@ == self@.projects[i as int]);
        self.state.projects[i].in_flight = self.state.projects[i].in_flight - 1;
        self.state.global_in_flight = self.state.global_in_flight - 1;
        assert(self@.projects =~= old(self)@.projects.update(i as int, self@.projects[i as int]));
    }

    /// If a more important tier has queued work, evicts the most recently queued
    /// request from the least important tier.
    fn try_evict(&mut self) -> (r: Option<Eviction<T>>)
        requires
            old(self)@.wf(),
        ensures
            eviction_done(old(self)@, final(self)@, r),
            final(self)@.wf(),
            final(self).settings() == old(self).settings(),
            old(self)@.balanced() ==> final(self)@.balanced(),
    {
        let tier = match self.state.top_tier() {
            Some(tier) => tier,
            None => {
                return None;
            },
        };
        let target = match self.state.pick_eviction_target() {
            Some(target) => target,
            None => {
                return None;
            },
        };
        assert(self.state.projects@[target as int]@ == self@.projects[target as int]);
        proof {
            let top = choose|i: int| self@.leads(i);
            self@.lemma_should_evict(top, target as int);
            self@.lemma_evicted(target as int);
        }
        if tier >= self.state.projects[target].priority {
            return None;
        }
        let item = self.state.projects[target].items.pop_back();
        assert(self@ == old(self)@.evicted(target as int));
        let q = &self.state.projects[target];
        Some(
            Eviction {
                project_name: q.name.clone(),
                item: item.unwrap(),
                queue_size: q.items.len(),
            },
        )
    }

    /// Dispatches as many requests as current capacity allows. `deliver` hands a
    /// request its slot and says whether it was still there to take it; where it
    /// was not, the slot goes back at once. When all slots are taken in the end,
    /// a request may be evicted.
    pub fn drain<F: Fn(Dispatch<T>) -> bool>(&mut self, deliver: F) -> (r: Drained<T>)
        requires
            old(self)@.wf(),
            forall|d: Dispatch<T>| #[trigger] deliver.requires((d,)),
        ensures
            final(self)@.wf(),
            final(self).settings() == old(self).settings(),
            old(self)@.balanced() ==> final(self)@.balanced(),
            old(self)@.lawful(r.steps@),
            old(self)@.after(r.steps@).settled(),
            forall|k: int|
                0 <= k < r.steps@.len() ==> #[trigger] handed_over(
                    deliver,
                    old(self)@.after(r.steps@.take(k)),
                    r.steps@[k],
                ),
            forall|k: int|
                0 <= k < r.steps@.len() ==> #[trigger] picked_by_draw(
                    old(self)@.after(r.steps@.take(k)),
                    r.steps@[k].position as int,
                ),
            old(self)@.after(r.steps@).full() ==> eviction_done(
                old(self)@.after(r.steps@),
                final(self)@,
                r.evicted,
            ),
            !old(self)@.after(r.steps@).full() ==> {
                &&& r.evicted is None
                &&& final(self)@ == old(self)@.after(r.steps@)
            },
            final(self)@ == next_state(old(self)@, Event::HandOut(r.steps@)),
    {
        let ghost start = self@;
        let mut steps: Vec<DrainStep> = Vec::new();
        loop
            invariant
                start == old(self)@,
                self@ == start.after(steps@),
                start.lawful(steps@),
                self@.wf(),
                self.settings() == old(self).settings(),
                start.balanced() ==> self@.balanced(),
                forall|d: Dispatch<T>| #[trigger] deliver.requires((d,)),
                forall|k: int|
                    0 <= k < steps@.len() ==> #[trigger] handed_over(
                        deliver,
                        start.after(steps@.take(k)),
                        steps@[k],
                    ),
                forall|k: int|
                    0 <= k < steps@.len() ==> #[trigger] picked_by_draw(
                        start.after(steps@.take(k)),
                        steps@[k].position as int,
                    ),
            decreases self@.queued(),
        {
            if self.state.global_in_flight >= self.state.global_slots {
                let evicted = self.try_evict();
                return Drained { steps, evicted };
            }
            let i = match self.state.pick_next() {
                Some(i) => i,
                None => {
                    return Drained { steps, evicted: None };
                },
            };
            let ghost before = self@;
            let ghost so_far = steps@;
            let offer = self.dispatch(i);
            let ghost given = offer;
            let delivered = deliver(offer);
            if !delivered {
                self.take_back(i);
                assert(self@ =~= before.discarded(i as int));
            }
            let step = DrainStep { position: i, delivered };
            steps.push(step);
            proof {
                before.lemma_stepped(step);
                start.lemma_after_push(so_far, step);
                assert(given.offered(before, i as int) && deliver.ensures((given,), delivered));
                assert forall|k: int| 0 <= k < steps@.len() implies #[trigger] handed_over(
                    deliver,
                    start.after(steps@.take(k)),
                    steps@[k],
                ) by {
                    assert(steps@.take(k) == so_far.take(k));
                    if k == so_far.len() {
                        assert(so_far.take(k) =~= so_far);
                    }
                }
                assert(picked_by_draw(before, i as int));
                assert forall|k: int| 0 <= k < steps@.len() implies #[trigger] picked_by_draw(
                    start.after(steps@.take(k)),
                    steps@[k].position as int,
                ) by {
                    assert(steps@.take(k) == so_far.take(k));
                    if k == so_far.len() {
                        assert(so_far.take(k) =~= so_far);
                    } else {
                        assert(picked_by_draw(
                            start.after(so_far.take(k)),
                            so_far[k].position as int,
                        ));
                    }
                }
            }
        }
    }

    /// Gives a slot back. The counts do not go below zero.
    pub fn release(&mut self, permit: SlotPermit) -> (r: Release)
        requires
            old(self)@.wf(),
        ensures
            final(self)@ == old(self)@.released(permit@),
            final(self)@ == next_state(old(self)@, Event::Return(permit@)),
            final(self)@.wf(),
            final(self).settings() == old(self).settings(),
            r.project_name@ == permit@,
            r.slots_in_use == final(self)@.in_flight,
            old(self)@.has_project(permit@) ==> r.in_flight
                == final(self)@.projects[old(self)@.position_of(permit@)].in_flight,
            !old(self)@.has_project(permit@) ==> r.in_flight == 0,
    {
        proof {
            self@.lemma_released(permit@);
        }
        let at = self.position(permit.project_name.as_str());
        let mut in_flight: usize = 0;
        if let Some(i) = at {
            assert(self.state.projects@[i as int]@ == self@.projects[i as int]);
            in_flight = self.state.projects[i].in_flight;
            if in_flight > 0 {
                in_flight = in_flight - 1;
            }
            self.state.projects[i].in_flight = in_flight;
            assert(self@.projects =~= old(self)@.released(permit@).projects);
        }
        if self.state.global_in_flight > 0 {
            self.state.global_in_flight = self.state.global_in_flight - 1;
        }
        assert(self@.projects =~= old(self)@.released(permit@).projects);
        Release {
            project_name: permit.project_name,
            in_flight,
            slots_in_use: self.state.global_in_flight,
        }
    }

    /// How long a request of a project may take, from its arrival on: the wait
    /// for its slot and the time it is being served.
    pub fn request_timeout(&self, project_name: &str) -> (r: Duration)
        ensures
            r == request_timeout_of(self.settings(), project_name@),
    {
        match self.config.projects.get(project_name) {
            Some(project) => self.config.effective_timeout(project),
            None => self.config.default_timeout,
        }
    }

    /// What a request gets, given how its wait for a slot ended: the answer that
    /// came, or a timeout where none came in time or none can come any more.
    pub fn wait_for_slot<P>(&self, project_name: &str, outcome: WaitOutcome<P>) -> (r: Result<
        P,
        QueueError,
    >)
        ensures
            outcome matches WaitOutcome::Answered(answer) ==> r == answer,
            !(outcome is Answered) ==> {
                &&& r matches Err(QueueError::Timeout(name))
                &&& name@ == project_name@
            },
    {
        match outcome {
            WaitOutcome::Answered(answer) => answer,
            WaitOutcome::Closed => Err(QueueError::Timeout(project_name.to_owned())),
            WaitOutcome::Elapsed => Err(QueueError::Timeout(project_name.to_owned())),
        }
    }

    /// How many requests of a project wait. None of an unknown project do.
    pub fn queue_size(&self, project_name: &str) -> (r: usize)
        requires
            self@.wf(),
        ensures
            self@.has_project(project_name@) ==> r == self@.projects[self@.position_of(
                project_name@,
            )].items.len(),
            !self@.has_project(project_name@) ==> r == 0,
    {
        match self.position(project_name) {
            Some(i) => {
                assert(self.state.projects@[i as int]@ == self@.projects[i as int]);
                self.state.projects[i].items.len()
            },
            None => 0,
        }
    }

    /// How many slots a project holds. An unknown project holds none.
    pub fn in_flight_count(&self, project_name: &str) -> (r: usize)
        requires
            self@.wf(),
        ensures
            self@.has_project(project_name@) ==> r == self@.projects[self@.position_of(
                project_name@,
            )].in_flight,
            !self@.has_project(project_name@) ==> r == 0,
    {
        match self.position(project_name) {
            Some(i) => {
                assert(self.state.projects@[i as int]@ == self@.projects[i as int]);
                self.state.projects[i].in_flight
            },
            None => 0,
        }
    }
}

/// Whether `deliver` was offered what the step's project gets in the given
/// state, and answered as the step says.
pub open spec fn handed_over<T, F: Fn(Dispatch<T>) -> bool>(
    deliver: F,
    state: StateView<T>,
    step: DrainStep,
) -> bool {
    exists|d: Dispatch<T>| #[trigger]
        d.offered(state, step.position as int) && deliver.ensures((d,), step.delivered)
}

} // verus!
