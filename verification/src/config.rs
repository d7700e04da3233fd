//! The gateway's configuration: which projects there are, how they rank, and
//! which API keys belong to them.
use std::time::Duration;
use vstd::prelude::*;
use vstd::string::*;
use crate::name_map::{has_name, NameMap};
use crate::text::{decimal, decimal_of, same, texts};

verus! {

/// The whole configuration.
#[derive(Debug)]
pub struct ProxyConfig {
    pub server: ServerConfig,
    pub upstream: UpstreamConfig,
    /// Number of llama.cpp inference slots
    pub slots: usize,
    /// Default request timeout if not specified per project
    pub default_timeout: Duration,
    /// What to do with requests that have no matching API key
    pub unauthenticated: UnauthenticatedPolicy,
    pub projects: NameMap<ProjectConfig>,
}

/// What to do with requests that have no matching API key: refuse them, or
/// assign them to a project.
#[derive(Debug)]
pub enum UnauthenticatedPolicy {
    Reject(RejectLiteral),
    Project(String),
}

/// The word that stands for refusal.
#[derive(Debug, Clone, Copy)]
pub enum RejectLiteral {
    Reject,
}

/// One project.
#[derive(Debug)]
pub struct ProjectConfig {
    /// Strict tier ordering: lower number = processed first.
    /// Projects in tier 1 are fully served before tier 2 gets any slots.
    pub priority: u32,
    /// Relative weight within the same priority tier.
    /// Normalized across peers: share 2 beside share 1 gets 67% and 33%.
    /// Defaults to 1.
    pub share: u32,
    /// Hard cap on concurrent slots this project can use.
    /// Defaults to global slots count.
    pub max_slots: Option<usize>,
    /// Per-project request timeout (queue time + processing).
    /// Falls back to the global default timeout if not set.
    pub timeout: Option<Duration>,
    /// API keys that map to this project.
    pub api_keys: Vec<String>,
}

/// Where the gateway listens.
#[derive(Debug)]
pub struct ServerConfig {
    pub host: String,
    pub port: u16,
}

/// Where requests are forwarded to.
#[derive(Debug)]
pub struct UpstreamConfig {
    pub url: String,
    pub api_key: Option<String>,
}

impl Clone for UnauthenticatedPolicy {
    fn clone(&self) -> (r: Self)
        ensures
            r == *self,
    {
        match self {
            UnauthenticatedPolicy::Reject(word) => UnauthenticatedPolicy::Reject(*word),
            UnauthenticatedPolicy::Project(name) => UnauthenticatedPolicy::Project(name.clone()),
        }
    }
}

impl Clone for ServerConfig {
    fn clone(&self) -> (r: Self)
        ensures
            r == *self,
    {
        ServerConfig { host: self.host.clone(), port: self.port }
    }
}

impl Clone for UpstreamConfig {
    fn clone(&self) -> (r: Self)
        ensures
            r == *self,
    {
        let api_key = match &self.api_key {
            Some(key) => Some(key.clone()),
            None => None,
        };
        UpstreamConfig { url: self.url.clone(), api_key }
    }
}

impl Clone for ProjectConfig {
    fn clone(&self) -> (r: Self)
        ensures
            r == (ProjectConfig { api_keys: r.api_keys, ..*self }),
            r.api_keys@ == self.api_keys@,
    {
        let api_keys = self.api_keys.clone();
        assert(api_keys@ == self.api_keys@);
        ProjectConfig {
            priority: self.priority,
            share: self.share,
            max_slots: self.max_slots,
            timeout: self.timeout,
            api_keys,
        }
    }
}

impl Clone for ProxyConfig {
    fn clone(&self) -> (r: Self)
        ensures
            r.server == self.server,
            r.upstream == self.upstream,
            r.unauthenticated == self.unauthenticated,
            r.slots == self.slots,
            r.default_timeout == self.default_timeout,
            r.projects@.len() == self.projects@.len(),
            forall|i: int|
                0 <= i < self.projects@.len() ==> {
                    &&& (#[trigger] r.projects@[i]).0 == self.projects@[i].0
                    &&& cloned(self.projects@[i].1, r.projects@[i].1)
                },
    {
        ProxyConfig {
            server: self.server.clone(),
            upstream: self.upstream.clone(),
            slots: self.slots,
            default_timeout: self.default_timeout,
            unauthenticated: self.unauthenticated.clone(),
            projects: self.projects.clone(),
        }
    }
}

/// Why a configuration is refused.
#[derive(Debug)]
pub enum ConfigError {
    NoSlots,
    NoProjects,
    UnknownUnauthenticated(String),
    PriorityTooLow(String),
    ShareTooLow(String),
    MaxSlotsTooLow(String),
    MaxSlotsTooHigh(String, usize, usize),
    RepeatedKey(String),
}

/// A refusal, with its names as characters.
pub enum ConfigFault {
    NoSlots,
    NoProjects,
    UnknownUnauthenticated(Seq<char>),
    PriorityTooLow(Seq<char>),
    ShareTooLow(Seq<char>),
    MaxSlotsTooLow(Seq<char>),
    MaxSlotsTooHigh(Seq<char>, usize, usize),
    RepeatedKey(Seq<char>),
}

impl View for ConfigError {
    type V = ConfigFault;

    open spec fn view(&self) -> ConfigFault {
        match self {
            ConfigError::NoSlots => ConfigFault::NoSlots,
            ConfigError::NoProjects => ConfigFault::NoProjects,
            ConfigError::UnknownUnauthenticated(n) => ConfigFault::UnknownUnauthenticated(n@),
            ConfigError::PriorityTooLow(n) => ConfigFault::PriorityTooLow(n@),
            ConfigError::ShareTooLow(n) => ConfigFault::ShareTooLow(n@),
            ConfigError::MaxSlotsTooLow(n) => ConfigFault::MaxSlotsTooLow(n@),
            ConfigError::MaxSlotsTooHigh(n, m, s) => ConfigFault::MaxSlotsTooHigh(n@, *m, *s),
            ConfigError::RepeatedKey(k) => ConfigFault::RepeatedKey(k@),
        }
    }
}

/// The named projects of a configuration, in order.
pub type Projects = Seq<(Seq<char>, ProjectConfig)>;

/// The API keys of the project at position `i`.
pub open spec fn keys_of(projects: Projects, i: int) -> Seq<Seq<char>> {
    texts(projects[i].1.api_keys@)
}

/// The API keys of the first `n` projects, in order.
pub open spec fn keys_before(projects: Projects, n: int) -> Seq<Seq<char>>
    decreases n,
{
    if n <= 0 {
        Seq::empty()
    } else {
        keys_before(projects, n - 1) + keys_of(projects, n - 1)
    }
}

/// Whether key `j` of `keys` was seen before: in `seen`, or earlier in `keys`.
pub open spec fn repeats_at(seen: Seq<Seq<char>>, keys: Seq<Seq<char>>, j: int) -> bool {
    0 <= j < keys.len() && (seen + keys.take(j)).contains(keys[j])
}

/// Whether key `j` is the first of `keys` that was seen before.
pub open spec fn first_repeat(seen: Seq<Seq<char>>, keys: Seq<Seq<char>>, j: int) -> bool {
    repeats_at(seen, keys, j) && forall|k: int| 0 <= k < j ==> !repeats_at(seen, keys, k)
}

/// What is wrong with the project at position `i`, if anything.
pub open spec fn project_fault(slots: usize, projects: Projects, i: int) -> Option<ConfigFault> {
    let name = projects[i].0;
    let p = projects[i].1;
    let seen = keys_before(projects, i);
    let keys = keys_of(projects, i);
    if p.priority < 1 {
        Some(ConfigFault::PriorityTooLow(name))
    } else if p.share < 1 {
        Some(ConfigFault::ShareTooLow(name))
    } else if p.max_slots == Some(0usize) {
        Some(ConfigFault::MaxSlotsTooLow(name))
    } else if p.max_slots matches Some(m) && m > slots {
        Some(ConfigFault::MaxSlotsTooHigh(name, p.max_slots->0, slots))
    } else if exists|j: int| first_repeat(seen, keys, j) {
        Some(ConfigFault::RepeatedKey(keys[choose|j: int| first_repeat(seen, keys, j)]))
    } else {
        None
    }
}

/// The fault of the first faulty project from position `i` on.
pub open spec fn fault_from(slots: usize, projects: Projects, i: int) -> Option<ConfigFault>
    decreases projects.len() - i,
{
    if i < 0 || i >= projects.len() {
        None
    } else if project_fault(slots, projects, i) is Some {
        project_fault(slots, projects, i)
    } else {
        fault_from(slots, projects, i + 1)
    }
}

/// Whether a project has this API key.
pub open spec fn owns_key(projects: Projects, key: Seq<char>, i: int) -> bool {
    0 <= i < projects.len() && keys_of(projects, i).contains(key)
}

/// Whether the project at position `i` is the first that has this API key.
pub open spec fn first_owner(projects: Projects, key: Seq<char>, i: int) -> bool {
    owns_key(projects, key, i) && forall|k: int| 0 <= k < i ==> !owns_key(projects, key, k)
}

/// The name of the project that an API key belongs to.
pub open spec fn owner_of(projects: Projects, key: Seq<char>) -> Option<Seq<char>> {
    if exists|i: int| first_owner(projects, key, i) {
        Some(projects[choose|i: int| first_owner(projects, key, i)].0)
    } else {
        None
    }
}

impl UnauthenticatedPolicy {
    /// The project that requests without a matching key go to, if any.
    pub open spec fn target(self) -> Option<Seq<char>> {
        match self {
            UnauthenticatedPolicy::Project(name) => Some(name@),
            UnauthenticatedPolicy::Reject(_) => None,
        }
    }

    /// The project that requests without a matching key go to, if any.
    pub fn project_name(&self) -> (r: Option<&str>)
        ensures
            r is Some <==> self.target() is Some,
            r matches Some(name) ==> name@ == self.target()->0,
    {
        match self {
            UnauthenticatedPolicy::Project(name) => Some(name.as_str()),
            UnauthenticatedPolicy::Reject(_) => None,
        }
    }
}

/// The policy where the configuration names none: refuse.
pub fn default_unauthenticated() -> (r: UnauthenticatedPolicy)
    ensures
        r == UnauthenticatedPolicy::Reject(RejectLiteral::Reject),
{
    UnauthenticatedPolicy::Reject(RejectLiteral::Reject)
}

/// The share where the configuration names none.
pub fn default_share() -> (r: u32)
    ensures
        r == 1,
{
    1
}

/// The host where the configuration names none.
pub fn default_host() -> (r: String)
    ensures
        r@ == "0.0.0.0"@,
{
    "0.0.0.0".to_owned()
}

/// The port where the configuration names none.
pub fn default_port() -> (r: u16)
    ensures
        r == 8080,
{
    8080
}

/// The text that describes a refusal.
pub open spec fn fault_text(fault: ConfigFault) -> Seq<char> {
    match fault {
        ConfigFault::NoSlots => "slots must be > 0"@,
        ConfigFault::NoProjects => "at least one project must be configured"@,
        ConfigFault::UnknownUnauthenticated(name) => "unauthenticated project '"@ + name
            + "' does not exist"@,
        ConfigFault::PriorityTooLow(name) => "project '"@ + name + "': priority must be >= 1"@,
        ConfigFault::ShareTooLow(name) => "project '"@ + name + "': share must be >= 1"@,
        ConfigFault::MaxSlotsTooLow(name) => "project '"@ + name + "': max_slots must be >= 1"@,
        ConfigFault::MaxSlotsTooHigh(name, max_slots, slots) => "project '"@ + name
            + "': max_slots ("@ + decimal_of(max_slots as nat) + ") exceeds global slots ("@
            + decimal_of(slots as nat) + ")"@,
        ConfigFault::RepeatedKey(key) => "api key '"@ + key
            + "' is assigned to multiple projects"@,
    }
}

impl ConfigError {
    /// The text that describes the refusal.
    pub fn message(&self) -> (r: String)
        ensures
            r@ == fault_text(self@),
    {
        match self {
            ConfigError::NoSlots => "slots must be > 0".to_owned(),
            ConfigError::NoProjects => "at least one project must be configured".to_owned(),
            ConfigError::UnknownUnauthenticated(name) => "unauthenticated project '".to_owned()
                .concat(name.as_str()).concat("' does not exist"),
            ConfigError::PriorityTooLow(name) => "project '".to_owned().concat(
                name.as_str(),
            ).concat("': priority must be >= 1"),
            ConfigError::ShareTooLow(name) => "project '".to_owned().concat(name.as_str()).concat(
                "': share must be >= 1",
            ),
            ConfigError::MaxSlotsTooLow(name) => "project '".to_owned().concat(
                name.as_str(),
            ).concat("': max_slots must be >= 1"),
            ConfigError::MaxSlotsTooHigh(name, max_slots, slots) => "project '".to_owned().concat(
                name.as_str(),
            ).concat("': max_slots (").concat(decimal(*max_slots).as_str()).concat(
                ") exceeds global slots (",
            ).concat(decimal(*slots).as_str()).concat(")"),
            ConfigError::RepeatedKey(key) => "api key '".to_owned().concat(key.as_str()).concat(
                "' is assigned to multiple projects",
            ),
        }
    }
}

/// Adds the keys of one project to those seen so far. Stops at the first that
/// was seen before, and hands it back.
fn note_keys(seen: &mut Vec<String>, keys: &Vec<String>) -> (r: Option<String>)
    ensures
        r matches Some(k) ==> exists|j: int|
            #![trigger first_repeat(texts(old(seen)@), texts(keys@), j)]
            first_repeat(texts(old(seen)@), texts(keys@), j) && k@ == texts(keys@)[j],
        r is None ==> {
            &&& texts(final(seen)@) == texts(old(seen)@) + texts(keys@)
            &&& forall|j: int| !first_repeat(texts(old(seen)@), texts(keys@), j)
        },
{
    let ghost before = texts(seen@);
    let ghost all = texts(keys@);
    let mut j: usize = 0;
    assert(before + all.take(0) == before);
    while j < keys.len()
        invariant
            j <= keys.len(),
            all == texts(keys@),
            before == texts(old(seen)@),
            texts(seen@) == before + all.take(j as int),
            forall|k: int| 0 <= k < j ==> !repeats_at(before, all, k),
        decreases keys.len() - j,
    {
        let mut known = false;
        let mut s: usize = 0;
        while s < seen.len()
            invariant
                s <= seen.len(),
                j < keys.len(),
                known == exists|k: int| 0 <= k < s && texts(seen@)[k] == texts(keys@)[j as int],
            decreases seen.len() - s,
        {
            assert(texts(seen@)[s as int] == seen@[s as int]@);
            if same(seen[s].as_str(), keys[j].as_str()) {
                known = true;
            }
            s = s + 1;
        }
        assert(known == (before + all.take(j as int)).contains(all[j as int]));
        if known {
            let key = keys[j].clone();
            assert(first_repeat(before, all, j as int) && key@ == all[j as int]);
            return Some(key);
        }
        proof {
            assert(texts(seen@.push(keys@[j as int])) == texts(seen@).push(all[j as int]));
            assert(before + all.take(j + 1) == (before + all.take(j as int)).push(all[j as int]));
        }
        seen.push(keys[j].clone());
        j = j + 1;
    }
    assert(all.take(j as int) == all);
    None
}

impl ProxyConfig {
    /// What is wrong with the configuration, if anything.
    pub open spec fn fault(self) -> Option<ConfigFault> {
        if self.slots == 0 {
            Some(ConfigFault::NoSlots)
        } else if self.projects@.len() == 0 {
            Some(ConfigFault::NoProjects)
        } else if self.unauthenticated.target() is Some && !has_name(
            self.projects@,
            self.unauthenticated.target()->0,
        ) {
            Some(ConfigFault::UnknownUnauthenticated(self.unauthenticated.target()->0))
        } else {
            fault_from(self.slots, self.projects@, 0)
        }
    }

    /// The cap on concurrent requests of a project.
    pub open spec fn max_slots_of(self, project: ProjectConfig) -> usize {
        match project.max_slots {
            Some(m) => m,
            None => self.slots,
        }
    }

    /// The time a request of a project may take.
    pub open spec fn timeout_of(self, project: ProjectConfig) -> Duration {
        match project.timeout {
            Some(d) => d,
            None => self.default_timeout,
        }
    }

    /// Checks the configuration, in the order of its projects, and reports the
    /// first fault.
    pub fn validate(&self) -> (r: Result<(), ConfigError>)
        ensures
            r is Ok <==> self.fault() is None,
            r matches Err(e) ==> self.fault() == Some(e@),
    {
        if self.slots == 0 {
            return Err(ConfigError::NoSlots);
        }
        if self.projects.is_empty() {
            return Err(ConfigError::NoProjects);
        }
        if let Some(name) = self.unauthenticated.project_name() {
            if !self.projects.contains_key(name) {
                return Err(ConfigError::UnknownUnauthenticated(name.to_owned()));
            }
        }
        let mut seen: Vec<String> = Vec::new();
        let mut i: usize = 0;
        assert(texts(seen@) == keys_before(self.projects@, 0));
        while i < self.projects.len()
            invariant
                i <= self.projects@.len(),
                self.slots > 0,
                self.projects@.len() > 0,
                self.fault() == fault_from(self.slots, self.projects@, i as int),
                texts(seen@) == keys_before(self.projects@, i as int),
            decreases self.projects@.len() - i,
        {
            let name = self.projects.name_at(i);
            let project = self.projects.value_at(i);
            if project.priority < 1 {
                return Err(ConfigError::PriorityTooLow(name.to_owned()));
            }
            if project.share < 1 {
                return Err(ConfigError::ShareTooLow(name.to_owned()));
            }
            if let Some(max_slots) = project.max_slots {
                if max_slots < 1 {
                    return Err(ConfigError::MaxSlotsTooLow(name.to_owned()));
                }
                if max_slots > self.slots {
                    return Err(
                        ConfigError::MaxSlotsTooHigh(name.to_owned(), max_slots, self.slots),
                    );
                }
            }
            let ghost before = texts(seen@);
            if let Some(key) = note_keys(&mut seen, &project.api_keys) {
                proof {
                    let keys = keys_of(self.projects@, i as int);
                    let j = choose|j: int|
                        #![trigger first_repeat(before, keys, j)]
                        first_repeat(before, keys, j) && key@ == keys[j];
                    let c = choose|j: int| first_repeat(before, keys, j);
                    assert(first_repeat(before, keys, c));
                    assert(c == j);
                }
                return Err(ConfigError::RepeatedKey(key));
            }
            i = i + 1;
        }
        Ok(())
    }

    /// The configuration itself, once it has been found in order.
    pub fn validated(self) -> (r: Result<ProxyConfig, ConfigError>)
        ensures
            r is Ok <==> self.fault() is None,
            r matches Ok(config) ==> config == self,
            r matches Err(e) ==> self.fault() == Some(e@),
    {
        match self.validate() {
            Ok(()) => Ok(self),
            Err(e) => Err(e),
        }
    }

    /// Resolve the effective max_slots for a project
    pub fn effective_max_slots(&self, project: &ProjectConfig) -> (r: usize)
        ensures
            r == self.max_slots_of(*project),
    {
        project.max_slots.unwrap_or(self.slots)
    }

    /// Resolve the effective timeout for a project
    pub fn effective_timeout(&self, project: &ProjectConfig) -> (r: Duration)
        ensures
            r == self.timeout_of(*project),
    {
        project.timeout.unwrap_or(self.default_timeout)
    }

    /// Look up which project an API key belongs to
    pub fn project_for_key(&self, api_key: &str) -> (r: Option<&str>)
        ensures
            r is Some <==> owner_of(self.projects@, api_key@) is Some,
            r matches Some(name) ==> name@ == owner_of(self.projects@, api_key@)->0,
    {
        let mut i: usize = 0;
        while i < self.projects.len()
            invariant
                i <= self.projects@.len(),
                forall|k: int| 0 <= k < i ==> !owns_key(self.projects@, api_key@, k),
            decreases self.projects@.len() - i,
        {
            let keys = &self.projects.value_at(i).api_keys;
            let mut j: usize = 0;
            while j < keys.len()
                invariant
                    i < self.projects@.len(),
                    j <= keys.len(),
                    *keys == self.projects@[i as int].1.api_keys,
                    forall|k: int| 0 <= k < i ==> !owns_key(self.projects@, api_key@, k),
                    forall|k: int| 0 <= k < j ==> texts(keys@)[k] != api_key@,
                decreases keys.len() - j,
            {
                if same(keys[j].as_str(), api_key) {
                    proof {
                        assert(keys_of(self.projects@, i as int)[j as int] == api_key@);
                        assert(first_owner(self.projects@, api_key@, i as int));
                        let c = choose|c: int| first_owner(self.projects@, api_key@, c);
                        assert(first_owner(self.projects@, api_key@, c));
                        assert(c == i);
                    }
                    return Some(self.projects.name_at(i));
                }
                j = j + 1;
            }
            assert(!owns_key(self.projects@, api_key@, i as int));
            i = i + 1;
        }
        None
    }
}

} // verus!
