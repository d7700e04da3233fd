//! What holds of every configuration: when it passes, what is reported where it
//! does not, and what follows from it.
use vstd::prelude::*;
use crate::config::{
    fault_from, fault_text, first_owner, first_repeat, keys_before, keys_of, owner_of, owns_key,
    project_fault, repeats_at, ConfigError, ConfigFault, ProjectConfig, Projects, ProxyConfig,
    RejectLiteral, UnauthenticatedPolicy,
};
use crate::name_map::{distinct_names, has_name, index_of_name};
use crate::queue::request_timeout_of;
use crate::schedule::{initial_state, StateView};
use crate::scheduling_laws::{all_have_shares, same_projects};
use crate::text::decimal_of;

verus! {

/// Whether no API key occurs twice among the first `n` projects.
pub open spec fn distinct_keys(projects: Projects, n: int) -> bool {
    forall|i: int, a: int, k: int, b: int|
        #![trigger keys_of(projects, i)[a], keys_of(projects, k)[b]]
        0 <= i < n && 0 <= k < n && 0 <= a < keys_of(projects, i).len() && 0 <= b < keys_of(
            projects,
            k,
        ).len() && keys_of(projects, i)[a] == keys_of(projects, k)[b] ==> i == k && a == b
}

/// Whether the numbers of the project at position `i` are in order.
pub open spec fn numbers_in_order(slots: usize, projects: Projects, i: int) -> bool {
    let p = projects[i].1;
    &&& p.priority >= 1
    &&& p.share >= 1
    &&& p.max_slots matches Some(m) ==> 1 <= m <= slots
}

/// Whether a configuration is in order: there are slots and projects, requests
/// without a matching key are refused or go to a project that exists, the
/// numbers of every project are in order, and no API key occurs twice.
pub open spec fn in_order(config: ProxyConfig) -> bool {
    &&& config.slots > 0
    &&& config.projects@.len() > 0
    &&& config.unauthenticated.target() matches Some(name) ==> has_name(config.projects@, name)
    &&& forall|i: int|
        0 <= i < config.projects@.len() ==> #[trigger] numbers_in_order(
            config.slots,
            config.projects@,
            i,
        )
    &&& distinct_keys(config.projects@, config.projects@.len() as int)
}

/// The keys of the first projects are those of each of them.
proof fn lemma_keys_before(projects: Projects, n: int, key: Seq<char>)
    requires
        0 <= n <= projects.len(),
    ensures
        keys_before(projects, n).contains(key) <==> exists|i: int|
            0 <= i < n && #[trigger] keys_of(projects, i).contains(key),
    decreases n,
{
    if n > 0 {
        lemma_keys_before(projects, n - 1, key);
        let earlier = keys_before(projects, n - 1);
        let own = keys_of(projects, n - 1);
        assert(keys_before(projects, n) == earlier + own);
        if earlier.contains(key) {
            let j = choose|j: int| 0 <= j < earlier.len() && earlier[j] == key;
            assert((earlier + own)[j] == key);
        }
        if own.contains(key) {
            let j = choose|j: int| 0 <= j < own.len() && own[j] == key;
            assert((earlier + own)[earlier.len() + j] == key);
        }
        if (earlier + own).contains(key) {
            let j = choose|j: int| 0 <= j < (earlier + own).len() && (earlier + own)[j] == key;
            if j < earlier.len() {
                assert(earlier[j] == key);
            } else {
                assert(own[j - earlier.len()] == key);
            }
        }
    }
}

/// Where some key repeats, there is a first that does.
proof fn lemma_first_repeat(seen: Seq<Seq<char>>, keys: Seq<Seq<char>>, j: int)
    requires
        repeats_at(seen, keys, j),
    ensures
        exists|k: int| first_repeat(seen, keys, k),
    decreases j,
{
    if forall|k: int| 0 <= k < j ==> !repeats_at(seen, keys, k) {
        assert(first_repeat(seen, keys, j));
    } else {
        let k = choose|k: int| 0 <= k < j && repeats_at(seen, keys, k);
        lemma_first_repeat(seen, keys, k);
    }
}

/// One more project keeps the keys distinct exactly where none of its keys
/// repeats.
proof fn lemma_one_more_project(projects: Projects, n: int)
    requires
        0 <= n < projects.len(),
        distinct_keys(projects, n),
    ensures
        distinct_keys(projects, n + 1) <==> !exists|j: int|
            first_repeat(keys_before(projects, n), keys_of(projects, n), j),
{
    let seen = keys_before(projects, n);
    let keys = keys_of(projects, n);
    if exists|j: int| first_repeat(seen, keys, j) {
        let j = choose|j: int| first_repeat(seen, keys, j);
        let before = seen + keys.take(j);
        let x = choose|x: int| 0 <= x < before.len() && before[x] == keys[j];
        if x < seen.len() {
            assert(seen[x] == keys[j]);
            assert(seen.contains(keys[j]));
            lemma_keys_before(projects, n, keys[j]);
            let i = choose|i: int| 0 <= i < n && #[trigger] keys_of(projects, i).contains(keys[j]);
            let a = choose|a: int|
                0 <= a < keys_of(projects, i).len() && keys_of(projects, i)[a] == keys[j];
            assert(keys_of(projects, i)[a] == keys_of(projects, n)[j]);
        } else {
            let a = x - seen.len();
            assert(keys.take(j)[a] == keys[a]);
            assert(keys_of(projects, n)[a] == keys_of(projects, n)[j]);
        }
    } else {
        assert forall|i: int, a: int, k: int, b: int|
            #![trigger keys_of(projects, i)[a], keys_of(projects, k)[b]]
            0 <= i < n + 1 && 0 <= k < n + 1 && 0 <= a < keys_of(projects, i).len() && 0 <= b
                < keys_of(projects, k).len() && keys_of(projects, i)[a] == keys_of(
                projects,
                k,
            )[b] implies i == k && a == b by {
            if i < k || (i == k && a <= b) {
                lemma_no_clash(projects, n, i, a, k, b);
            } else {
                lemma_no_clash(projects, n, k, b, i, a);
            }
        }
    }
}

/// Where no key of the project at position `n` repeats, a key of it is no other
/// key up to it.
proof fn lemma_no_clash(projects: Projects, n: int, i: int, a: int, k: int, b: int)
    requires
        0 <= n < projects.len(),
        distinct_keys(projects, n),
        !exists|j: int| first_repeat(keys_before(projects, n), keys_of(projects, n), j),
        0 <= i <= k <= n,
        0 <= a < keys_of(projects, i).len(),
        0 <= b < keys_of(projects, k).len(),
        i == k ==> a <= b,
        keys_of(projects, i)[a] == keys_of(projects, k)[b],
    ensures
        i == k && a == b,
{
    let seen = keys_before(projects, n);
    let keys = keys_of(projects, n);
    if k == n && (i < n || a < b) {
        let before = seen + keys.take(b);
        if i < n {
            assert(keys_of(projects, i).contains(keys[b]));
            lemma_keys_before(projects, n, keys[b]);
            let x = choose|x: int| 0 <= x < seen.len() && seen[x] == keys[b];
            assert(before[x] == keys[b]);
        } else {
            assert(before[seen.len() + a] == keys[b]);
        }
        assert(repeats_at(seen, keys, b));
        lemma_first_repeat(seen, keys, b);
    }
}

/// The projects from position `n` on are free of faults exactly where their
/// numbers are in order and no key repeats.
proof fn lemma_faults(slots: usize, projects: Projects, n: int)
    requires
        0 <= n <= projects.len(),
        distinct_keys(projects, n),
    ensures
        fault_from(slots, projects, n) is None <==> {
            &&& forall|i: int|
                n <= i < projects.len() ==> #[trigger] numbers_in_order(slots, projects, i)
            &&& distinct_keys(projects, projects.len() as int)
        },
    decreases projects.len() - n,
{
    if n < projects.len() {
        lemma_one_more_project(projects, n);
        if project_fault(slots, projects, n) is None {
            assert(numbers_in_order(slots, projects, n));
            lemma_faults(slots, projects, n + 1);
        } else if numbers_in_order(slots, projects, n) {
            assert(!distinct_keys(projects, n + 1));
            let (i, a, k, b) = choose|i: int, a: int, k: int, b: int|
                #![trigger keys_of(projects, i)[a], keys_of(projects, k)[b]]
                0 <= i < n + 1 && 0 <= k < n + 1 && 0 <= a < keys_of(projects, i).len() && 0 <= b
                    < keys_of(projects, k).len() && keys_of(projects, i)[a] == keys_of(
                    projects,
                    k,
                )[b] && !(i == k && a == b);
            assert(keys_of(projects, i)[a] == keys_of(projects, k)[b]);
        }
    }
}

/// A configuration is refused exactly where it is not in order.
pub proof fn law_only_configurations_in_order_pass(config: ProxyConfig)
    ensures
        config.fault() is None <==> in_order(config),
{
    assert(distinct_keys(config.projects@, 0));
    lemma_faults(config.slots, config.projects@, 0);
}

/// In a configuration that has passed, an API key belongs to one project at
/// most, and leads to that project.
pub proof fn law_a_key_leads_to_its_project(config: ProxyConfig, key: Seq<char>, i: int)
    requires
        config.fault() is None,
        owns_key(config.projects@, key, i),
    ensures
        owner_of(config.projects@, key) == Some(config.projects@[i].0),
        forall|k: int| owns_key(config.projects@, key, k) ==> k == i,
{
    let projects = config.projects@;
    law_only_configurations_in_order_pass(config);
    assert forall|k: int| owns_key(projects, key, k) implies k == i by {
        let a = choose|a: int|
            0 <= a < keys_of(projects, i).len() && keys_of(projects, i)[a] == key;
        let b = choose|b: int|
            0 <= b < keys_of(projects, k).len() && keys_of(projects, k)[b] == key;
        assert(keys_of(projects, i)[a] == keys_of(projects, k)[b]);
    }
    assert(first_owner(projects, key, i));
    let c = choose|c: int| first_owner(projects, key, c);
    assert(first_owner(projects, key, c));
}

/// A key that no project has leads nowhere.
pub proof fn law_an_unknown_key_leads_nowhere(config: ProxyConfig, key: Seq<char>)
    requires
        forall|i: int| !owns_key(config.projects@, key, i),
    ensures
        owner_of(config.projects@, key) is None,
{
}

/// A scheduler starts in order from a configuration that has passed: every
/// project can be chosen, and no project may hold more slots than there are.
pub proof fn law_a_passed_configuration_starts_well<T>(config: ProxyConfig)
    requires
        config.fault() is None,
    ensures
        all_have_shares(initial_state::<T>(config)),
        initial_state::<T>(config).slots > 0,
        forall|i: int|
            0 <= i < config.projects@.len() ==> 1 <= (#[trigger] initial_state::<T>(
                config,
            ).projects[i]).max_slots <= config.slots,
        forall|name: Seq<char>|
            has_name(config.projects@, name) <==> initial_state::<T>(config).has_project(name),
{
    law_only_configurations_in_order_pass(config);
    let s = initial_state::<T>(config);
    assert forall|i: int| 0 <= i < config.projects@.len() implies 1 <= (
    #[trigger] s.projects[i]).max_slots <= config.slots && s.projects[i].share >= 1 by {
        assert(numbers_in_order(config.slots, config.projects@, i));
    }
    assert forall|name: Seq<char>|
        has_name(config.projects@, name) <==> s.has_project(name) by {
        if has_name(config.projects@, name) {
            let i = choose|i: int|
                0 <= i < config.projects@.len() && (#[trigger] config.projects@[i]).0 == name;
            assert(s.projects[i].name == name);
        }
        if s.has_project(name) {
            let i = choose|i: int|
                0 <= i < s.projects.len() && (#[trigger] s.projects[i]).name == name;
            assert(config.projects@[i].0 == name);
        }
    }
}

/// States with the same projects know the same names, and all projects have a
/// share in both or in neither.
pub proof fn law_same_projects_know_the_same_names<T>(
    a: StateView<T>,
    b: StateView<T>,
    name: Seq<char>,
)
    requires
        same_projects(a, b),
    ensures
        a.has_project(name) <==> b.has_project(name),
        all_have_shares(a) <==> all_have_shares(b),
{
    if a.has_project(name) {
        let i = choose|i: int| 0 <= i < a.projects.len() && (#[trigger] a.projects[i]).name == name;
        assert(b.projects[i].name == name);
    }
    if b.has_project(name) {
        let i = choose|i: int| 0 <= i < b.projects.len() && (#[trigger] b.projects[i]).name == name;
        assert(a.projects[i].name == name);
    }
    if all_have_shares(a) {
        assert forall|i: int| 0 <= i < b.projects.len() implies (
        #[trigger] b.projects[i]).share >= 1 by {
            assert(a.projects[i].share >= 1);
        }
    }
    if all_have_shares(b) {
        assert forall|i: int| 0 <= i < a.projects.len() implies (
        #[trigger] a.projects[i]).share >= 1 by {
            assert(b.projects[i].share >= 1);
        }
    }
}

/// A project's own timeout counts for it, whatever else is set; a project
/// without one has the default. The same holds of its cap and the slots.
pub proof fn law_own_limits_come_before_the_defaults(config: ProxyConfig, project: ProjectConfig)
    ensures
        project.timeout matches Some(d) ==> config.timeout_of(project) == d,
        project.timeout is None ==> config.timeout_of(project) == config.default_timeout,
        project.max_slots matches Some(m) ==> config.max_slots_of(project) == m,
        project.max_slots is None ==> config.max_slots_of(project) == config.slots,
{
}

/// A request may take as long as the timeout of its project says, whatever else
/// is set; where the project has none, or there is no such project, as long as
/// the default says.
pub proof fn law_how_long_a_request_may_take(config: ProxyConfig, name: Seq<char>, i: int)
    requires
        forall|a: int, b: int|
            0 <= a < b < config.projects@.len() ==> (#[trigger] config.projects@[a]).0 != (
            #[trigger] config.projects@[b]).0,
    ensures
        0 <= i < config.projects@.len() && config.projects@[i].0 == name ==> {
            &&& config.projects@[i].1.timeout matches Some(d) ==> request_timeout_of(config, name)
                == d
            &&& config.projects@[i].1.timeout is None ==> request_timeout_of(config, name)
                == config.default_timeout
        },
        (forall|k: int|
            0 <= k < config.projects@.len() ==> (#[trigger] config.projects@[k]).0 != name)
            ==> request_timeout_of(config, name) == config.default_timeout,
{
    law_names_are_found(config.projects@, name, i);
}

/// A name is found exactly where an entry has it, at that entry.
pub proof fn law_names_are_found<E>(entries: Seq<(Seq<char>, E)>, name: Seq<char>, i: int)
    requires
        forall|a: int, b: int|
            0 <= a < b < entries.len() ==> (#[trigger] entries[a]).0 != (
            #[trigger] entries[b]).0,
    ensures
        has_name(entries, name) <==> exists|k: int|
            0 <= k < entries.len() && (#[trigger] entries[k]).0 == name,
        0 <= i < entries.len() && entries[i].0 == name ==> index_of_name(entries, name) == i,
        distinct_names(entries),
{
    if 0 <= i < entries.len() && entries[i].0 == name {
        let c = index_of_name(entries, name);
        assert(entries[c].0 == name);
    }
}

/// Requests without a matching key go to the project that the policy names, and
/// nowhere where it names none.
pub proof fn law_where_strangers_go(name: String, word: RejectLiteral)
    ensures
        UnauthenticatedPolicy::Project(name).target() == Some(name@),
        UnauthenticatedPolicy::Reject(word).target() is None,
{
}

/// A configuration passes exactly where there are slots and projects, requests
/// without a matching key are refused or go to a project that exists, every
/// project has a rank and a share of at least one and a cap between one and the
/// slots, if any, and no API key stands in two places.
pub proof fn law_what_a_configuration_needs(config: ProxyConfig)
    ensures
        config.fault() is None <==> {
            &&& config.slots > 0
            &&& config.projects@.len() > 0
            &&& config.unauthenticated matches UnauthenticatedPolicy::Project(name) ==> exists|k:
                int|
                0 <= k < config.projects@.len() && (#[trigger] config.projects@[k]).0 == name@
            &&& forall|i: int|
                0 <= i < config.projects@.len() ==> {
                    &&& (#[trigger] config.projects@[i]).1.priority >= 1
                    &&& config.projects@[i].1.share >= 1
                    &&& config.projects@[i].1.max_slots matches Some(m) ==> 1 <= m
                        <= config.slots
                }
            &&& forall|i: int, a: int, k: int, b: int|
                #![trigger config.projects@[i].1.api_keys@[a], config.projects@[k].1.api_keys@[b]]
                0 <= i < config.projects@.len() && 0 <= k < config.projects@.len() && 0 <= a
                    < config.projects@[i].1.api_keys@.len() && 0 <= b
                    < config.projects@[k].1.api_keys@.len()
                    && config.projects@[i].1.api_keys@[a]@ == config.projects@[k].1.api_keys@[b]@
                    ==> i == k && a == b
        },
{
    law_only_configurations_in_order_pass(config);
    let projects = config.projects@;
    let n = projects.len() as int;
    if forall|i: int|
        0 <= i < projects.len() ==> {
            &&& (#[trigger] projects[i]).1.priority >= 1
            &&& projects[i].1.share >= 1
            &&& projects[i].1.max_slots matches Some(m) ==> 1 <= m <= config.slots
        } {
        assert forall|i: int| 0 <= i < n implies #[trigger] numbers_in_order(
            config.slots,
            projects,
            i,
        ) by {
            assert(projects[i].1.priority >= 1);
        }
    }
    if in_order(config) {
        assert forall|i: int| 0 <= i < projects.len() implies {
            &&& (#[trigger] projects[i]).1.priority >= 1
            &&& projects[i].1.share >= 1
            &&& projects[i].1.max_slots matches Some(m) ==> 1 <= m <= config.slots
        } by {
            assert(numbers_in_order(config.slots, projects, i));
        }
    }
    lemma_distinct_keys(projects, n);
}

proof fn lemma_distinct_keys(projects: Projects, n: int)
    requires
        0 <= n <= projects.len(),
    ensures
        distinct_keys(projects, n) <==> forall|i: int, a: int, k: int, b: int|
            #![trigger projects[i].1.api_keys@[a], projects[k].1.api_keys@[b]]
            0 <= i < n && 0 <= k < n && 0 <= a < projects[i].1.api_keys@.len() && 0 <= b
                < projects[k].1.api_keys@.len() && projects[i].1.api_keys@[a]@
                == projects[k].1.api_keys@[b]@ ==> i == k && a == b,
{
    if distinct_keys(projects, n) {
        assert forall|i: int, a: int, k: int, b: int|
            #![trigger projects[i].1.api_keys@[a], projects[k].1.api_keys@[b]]
            0 <= i < n && 0 <= k < n && 0 <= a < projects[i].1.api_keys@.len() && 0 <= b
                < projects[k].1.api_keys@.len() && projects[i].1.api_keys@[a]@
                == projects[k].1.api_keys@[b]@ implies i == k && a == b by {
            assert(keys_of(projects, i)[a] == keys_of(projects, k)[b]);
        }
    } else {
        let (i, a, k, b) = choose|i: int, a: int, k: int, b: int|
            #![trigger keys_of(projects, i)[a], keys_of(projects, k)[b]]
            0 <= i < n && 0 <= k < n && 0 <= a < keys_of(projects, i).len() && 0 <= b < keys_of(
                projects,
                k,
            ).len() && keys_of(projects, i)[a] == keys_of(projects, k)[b] && !(i == k && a == b);
        assert(projects[i].1.api_keys@[a]@ == projects[k].1.api_keys@[b]@);
    }
}

/// The first fault is reported: missing slots before missing projects before a
/// policy that names nobody, and then that of the first project with a fault.
/// Within a project the rank comes before the share, the share before the cap,
/// and the cap before the keys, of which the first counts that has stood before.
pub proof fn law_which_fault_is_reported(config: ProxyConfig, i: int, j: int)
    ensures
        config.slots == 0 ==> config.fault() == Some(ConfigFault::NoSlots),
        config.slots > 0 && config.projects@.len() == 0 ==> config.fault() == Some(
            ConfigFault::NoProjects,
        ),
        config.slots > 0 && config.projects@.len() > 0 ==> (
        config.unauthenticated matches UnauthenticatedPolicy::Project(name) ==> (forall|k: int|
            0 <= k < config.projects@.len() ==> (#[trigger] config.projects@[k]).0 != name@)
            ==> config.fault() == Some(ConfigFault::UnknownUnauthenticated(name@))),
        ({
            let projects = config.projects@;
            let p = projects[i].1;
            let name = projects[i].0;
            // nothing is wrong up to the project at position `i`
            let fine = {
                &&& config.slots > 0
                &&& 0 <= i < projects.len()
                &&& config.unauthenticated matches UnauthenticatedPolicy::Project(n) ==> exists|k:
                    int|
                    0 <= k < projects.len() && (#[trigger] projects[k]).0 == n@
                &&& forall|k: int|
                    0 <= k < i ==> {
                        &&& (#[trigger] projects[k]).1.priority >= 1
                        &&& projects[k].1.share >= 1
                        &&& projects[k].1.max_slots matches Some(m) ==> 1 <= m <= config.slots
                    }
                &&& forall|x: int, a: int, y: int, b: int|
                    #![trigger projects[x].1.api_keys@[a], projects[y].1.api_keys@[b]]
                    0 <= x < i && 0 <= y < i && 0 <= a < projects[x].1.api_keys@.len() && 0 <= b
                        < projects[y].1.api_keys@.len() && projects[x].1.api_keys@[a]@
                        == projects[y].1.api_keys@[b]@ ==> x == y && a == b
            };
            // whether key `c` of the project has stood before
            let repeated = |c: int|
                (exists|x: int, a: int|
                    #![trigger projects[x].1.api_keys@[a]]
                    0 <= x < i && 0 <= a < projects[x].1.api_keys@.len()
                        && projects[x].1.api_keys@[a]@ == p.api_keys@[c]@) || (exists|a: int|
                    0 <= a < c && (#[trigger] p.api_keys@[a])@ == p.api_keys@[c]@);
            fine ==> {
                &&& p.priority == 0 ==> config.fault() == Some(ConfigFault::PriorityTooLow(name))
                &&& p.priority >= 1 && p.share == 0 ==> config.fault() == Some(
                    ConfigFault::ShareTooLow(name),
                )
                &&& p.priority >= 1 && p.share >= 1 && p.max_slots == Some(0usize)
                    ==> config.fault() == Some(ConfigFault::MaxSlotsTooLow(name))
                &&& p.priority >= 1 && p.share >= 1 ==> (p.max_slots matches Some(m) ==> m
                    > config.slots ==> config.fault() == Some(
                    ConfigFault::MaxSlotsTooHigh(name, m, config.slots),
                ))
                &&& p.priority >= 1 && p.share >= 1 && (p.max_slots matches Some(m) ==> 1 <= m
                    <= config.slots) && 0 <= j < p.api_keys@.len() && repeated(j) && (forall|c: int|
                    0 <= c < j ==> !#[trigger] repeated(c)) ==> config.fault() == Some(
                    ConfigFault::RepeatedKey(p.api_keys@[j]@),
                )
            }
        }),
{
    let projects = config.projects@;
    if config.slots > 0 && 0 <= i < projects.len() && (
    config.unauthenticated matches UnauthenticatedPolicy::Project(n) ==> exists|k: int|
        0 <= k < projects.len() && (#[trigger] projects[k]).0 == n@) && (forall|k: int|
        0 <= k < i ==> {
            &&& (#[trigger] projects[k]).1.priority >= 1
            &&& projects[k].1.share >= 1
            &&& projects[k].1.max_slots matches Some(m) ==> 1 <= m <= config.slots
        }) && (forall|x: int, a: int, y: int, b: int|
        #![trigger projects[x].1.api_keys@[a], projects[y].1.api_keys@[b]]
        0 <= x < i && 0 <= y < i && 0 <= a < projects[x].1.api_keys@.len() && 0 <= b
            < projects[y].1.api_keys@.len() && projects[x].1.api_keys@[a]@
            == projects[y].1.api_keys@[b]@ ==> x == y && a == b) {
        lemma_distinct_keys(projects, i);
        lemma_no_fault_before(config.slots, projects, i, 0);
        let p = projects[i].1;
        let seen = keys_before(projects, i);
        let keys = keys_of(projects, i);
        let repeated = |c: int|
            (exists|x: int, a: int|
                #![trigger projects[x].1.api_keys@[a]]
                0 <= x < i && 0 <= a < projects[x].1.api_keys@.len() && projects[x].1.api_keys@[a]@
                    == p.api_keys@[c]@) || (exists|a: int|
                0 <= a < c && (#[trigger] p.api_keys@[a])@ == p.api_keys@[c]@);
        assert forall|c: int| 0 <= c < p.api_keys@.len() implies #[trigger] repeated(c)
            == repeats_at(seen, keys, c) by {
            lemma_repeats(projects, i, c);
        }
        if 0 <= j < p.api_keys@.len() && repeated(j) && (forall|c: int|
            0 <= c < j ==> !#[trigger] repeated(c)) {
            assert forall|c: int| 0 <= c < j implies !repeats_at(seen, keys, c) by {
                assert(!repeated(c));
            }
            assert(first_repeat(seen, keys, j));
            let c = choose|c: int| first_repeat(seen, keys, c);
            assert(first_repeat(seen, keys, c));
            assert(c == j);
            assert(keys[j] == p.api_keys@[j]@);
        }
    }
}

/// Whether a key repeats, said of the keys of the projects themselves.
proof fn lemma_repeats(projects: Projects, i: int, c: int)
    requires
        0 <= i < projects.len(),
        0 <= c < projects[i].1.api_keys@.len(),
    ensures
        repeats_at(keys_before(projects, i), keys_of(projects, i), c) <==> (exists|x: int, a: int|
            #![trigger projects[x].1.api_keys@[a]]
            0 <= x < i && 0 <= a < projects[x].1.api_keys@.len() && projects[x].1.api_keys@[a]@
                == projects[i].1.api_keys@[c]@) || (exists|a: int|
            0 <= a < c && (#[trigger] projects[i].1.api_keys@[a])@
                == projects[i].1.api_keys@[c]@),
{
    let seen = keys_before(projects, i);
    let keys = keys_of(projects, i);
    let key = keys[c];
    let before = seen + keys.take(c);
    lemma_keys_before(projects, i, key);
    if repeats_at(seen, keys, c) {
        let x = choose|x: int| 0 <= x < before.len() && before[x] == key;
        if x < seen.len() {
            assert(seen[x] == key);
            let k = choose|k: int| 0 <= k < i && #[trigger] keys_of(projects, k).contains(key);
            let a = choose|a: int|
                0 <= a < keys_of(projects, k).len() && keys_of(projects, k)[a] == key;
            assert(projects[k].1.api_keys@[a]@ == projects[i].1.api_keys@[c]@);
        } else {
            let a = x - seen.len();
            assert(keys.take(c)[a] == keys[a]);
            assert(projects[i].1.api_keys@[a]@ == projects[i].1.api_keys@[c]@);
        }
    }
    if exists|x: int, a: int|
        #![trigger projects[x].1.api_keys@[a]]
        0 <= x < i && 0 <= a < projects[x].1.api_keys@.len() && projects[x].1.api_keys@[a]@
            == projects[i].1.api_keys@[c]@ {
        let (x, a) = choose|x: int, a: int|
            #![trigger projects[x].1.api_keys@[a]]
            0 <= x < i && 0 <= a < projects[x].1.api_keys@.len() && projects[x].1.api_keys@[a]@
                == projects[i].1.api_keys@[c]@;
        assert(keys_of(projects, x)[a] == key);
        assert(keys_of(projects, x).contains(key));
        let y = choose|y: int| 0 <= y < seen.len() && seen[y] == key;
        assert(before[y] == key);
    }
    if exists|a: int|
        0 <= a < c && (#[trigger] projects[i].1.api_keys@[a])@ == projects[i].1.api_keys@[c]@ {
        let a = choose|a: int|
            0 <= a < c && (#[trigger] projects[i].1.api_keys@[a])@
                == projects[i].1.api_keys@[c]@;
        assert(before[seen.len() + a] == key);
    }
}

/// Projects without a fault leave the report to those after them.
proof fn lemma_no_fault_before(slots: usize, projects: Projects, i: int, n: int)
    requires
        0 <= n <= i < projects.len(),
        distinct_keys(projects, i),
        forall|k: int|
            0 <= k < i ==> {
                &&& (#[trigger] projects[k]).1.priority >= 1
                &&& projects[k].1.share >= 1
                &&& projects[k].1.max_slots matches Some(m) ==> 1 <= m <= slots
            },
    ensures
        fault_from(slots, projects, n) == if project_fault(slots, projects, i) is Some {
            project_fault(slots, projects, i)
        } else {
            fault_from(slots, projects, i + 1)
        },
    decreases i - n,
{
    if n < i {
        assert(projects[n].1.priority >= 1);
        assert(distinct_keys(projects, n)) by {
            lemma_fewer_keys(projects, n, i);
        }
        assert(distinct_keys(projects, n + 1)) by {
            lemma_fewer_keys(projects, n + 1, i);
        }
        lemma_one_more_project(projects, n);
        lemma_no_fault_before(slots, projects, i, n + 1);
    }
}

proof fn lemma_fewer_keys(projects: Projects, n: int, i: int)
    requires
        0 <= n <= i <= projects.len(),
        distinct_keys(projects, i),
    ensures
        distinct_keys(projects, n),
{
}

/// A key leads to the first project that has it, and nowhere where none has.
pub proof fn law_where_a_key_leads(config: ProxyConfig, key: Seq<char>, i: int)
    ensures
        0 <= i < config.projects@.len() && (exists|a: int|
            0 <= a < config.projects@[i].1.api_keys@.len() && (
            #[trigger] config.projects@[i].1.api_keys@[a])@ == key) && (forall|k: int, b: int|
            #![trigger config.projects@[k].1.api_keys@[b]]
            0 <= k < i && 0 <= b < config.projects@[k].1.api_keys@.len()
                ==> config.projects@[k].1.api_keys@[b]@ != key) ==> owner_of(config.projects@, key)
            == Some(config.projects@[i].0),
        (forall|k: int, b: int|
            #![trigger config.projects@[k].1.api_keys@[b]]
            0 <= k < config.projects@.len() && 0 <= b < config.projects@[k].1.api_keys@.len()
                ==> config.projects@[k].1.api_keys@[b]@ != key) ==> owner_of(config.projects@, key)
            is None,
{
    let projects = config.projects@;
    assert forall|k: int| #[trigger] owns_key(projects, key, k) <==> 0 <= k < projects.len() && (
    exists|b: int|
        0 <= b < projects[k].1.api_keys@.len() && (#[trigger] projects[k].1.api_keys@[b])@
            == key) by {
        if owns_key(projects, key, k) {
            let b = choose|b: int|
                0 <= b < keys_of(projects, k).len() && keys_of(projects, k)[b] == key;
            assert(projects[k].1.api_keys@[b]@ == key);
        }
        if 0 <= k < projects.len() && exists|b: int|
            0 <= b < projects[k].1.api_keys@.len() && (#[trigger] projects[k].1.api_keys@[b])@
                == key {
            let b = choose|b: int|
                0 <= b < projects[k].1.api_keys@.len() && (#[trigger] projects[k].1.api_keys@[b])@
                    == key;
            assert(keys_of(projects, k)[b] == key);
        }
    }
    if 0 <= i < projects.len() && (exists|a: int|
        0 <= a < projects[i].1.api_keys@.len() && (#[trigger] projects[i].1.api_keys@[a])@ == key)
        && (forall|k: int, b: int|
        #![trigger projects[k].1.api_keys@[b]]
        0 <= k < i && 0 <= b < projects[k].1.api_keys@.len() ==> projects[k].1.api_keys@[b]@
            != key) {
        assert(owns_key(projects, key, i));
        assert(first_owner(projects, key, i));
        let c = choose|c: int| first_owner(projects, key, c);
        assert(first_owner(projects, key, c));
    }
}

/// Every refusal keeps what it speaks of, and its text names it.
pub proof fn law_refusals_of_configurations_say_why(name: String, max_slots: usize, slots: usize)
    ensures
        fault_text(ConfigError::NoSlots@) == "slots must be > 0"@,
        fault_text(ConfigError::NoProjects@) == "at least one project must be configured"@,
        fault_text(ConfigError::UnknownUnauthenticated(name)@) == "unauthenticated project '"@
            + name@ + "' does not exist"@,
        fault_text(ConfigError::PriorityTooLow(name)@) == "project '"@ + name@
            + "': priority must be >= 1"@,
        fault_text(ConfigError::ShareTooLow(name)@) == "project '"@ + name@
            + "': share must be >= 1"@,
        fault_text(ConfigError::MaxSlotsTooLow(name)@) == "project '"@ + name@
            + "': max_slots must be >= 1"@,
        fault_text(ConfigError::MaxSlotsTooHigh(name, max_slots, slots)@) == "project '"@ + name@
            + "': max_slots ("@ + decimal_of(max_slots as nat) + ") exceeds global slots ("@
            + decimal_of(slots as nat) + ")"@,
        fault_text(ConfigError::RepeatedKey(name)@) == "api key '"@ + name@
            + "' is assigned to multiple projects"@,
        ConfigError::NoSlots@ == ConfigFault::NoSlots,
        ConfigError::NoProjects@ == ConfigFault::NoProjects,
        ConfigError::UnknownUnauthenticated(name)@ == ConfigFault::UnknownUnauthenticated(name@),
        ConfigError::PriorityTooLow(name)@ == ConfigFault::PriorityTooLow(name@),
        ConfigError::ShareTooLow(name)@ == ConfigFault::ShareTooLow(name@),
        ConfigError::MaxSlotsTooLow(name)@ == ConfigFault::MaxSlotsTooLow(name@),
        ConfigError::MaxSlotsTooHigh(name, max_slots, slots)@ == ConfigFault::MaxSlotsTooHigh(
            name@,
            max_slots,
            slots,
        ),
        ConfigError::RepeatedKey(name)@ == ConfigFault::RepeatedKey(name@),
{
}

} // verus!
