//! Which measurements change when something happens to a request.
use prometheus::Encoder;
use vstd::prelude::*;
use vstd::string::*;
use crate::config::ProxyConfig;
use crate::queue::{Dispatch, Eviction, Release};
use crate::text::texts;

verus! {

/// What became of a request.
#[derive(Debug, Clone, Copy, PartialEq, Eq, Structural)]
pub enum Outcome {
    Success,
    Rejected,
    Evicted,
    Timeout,
    UpstreamError,
}

/// What was wrong with a request's credentials.
#[derive(Debug, Clone, Copy, PartialEq, Eq, Structural)]
pub enum CredentialFault {
    NoKey,
    UnknownKey,
}

/// One change of a measurement. The type `S` holds the project's name.
#[derive(Debug, PartialEq, Eq)]
pub enum MetricUpdate<S> {
    /// The configured number of slots
    SlotsTotal(usize),
    /// The number of slots that are taken
    SlotsInUse(usize),
    /// The number of slots that a project holds
    ProjectInFlight(S, usize),
    /// The number of requests of a project that wait
    ProjectQueueDepth(S, usize),
    /// Back to zero: the project's requests with this outcome
    ResetRequests(S, Outcome),
    /// Back to zero: the project's errors while reading a stream
    ResetStreamErrors(S),
    /// The project's waiting times appear, with none measured yet
    ShowQueueWait(S),
    /// The project's upstream times appear, with none measured yet
    ShowUpstreamDuration(S),
    /// The project's times to the first token appear, with none measured yet
    ShowFirstToken(S),
    /// The project's streaming times appear, with none measured yet
    ShowStreamDuration(S),
    /// One more request of the project with this outcome
    CountRequest(S, Outcome),
    /// One more request with missing or unknown credentials
    CountCredentialFault(CredentialFault),
    /// One more error of the project while reading a stream
    CountStreamError(S),
    /// The time that a request of the project has waited, until now
    ObserveQueueWait(S),
    /// The time from the slot of a request of the project until now
    ObserveUpstreamDuration(S),
    /// The time from the arrival of a request of the project until now
    ObserveFirstToken(S),
    /// The time from the first token of a request of the project until now
    ObserveStreamDuration(S),
}

/// A change of a measurement, with the project's name as characters.
pub type Metric = MetricUpdate<Seq<char>>;

impl View for MetricUpdate<String> {
    type V = Metric;

    open spec fn view(&self) -> Metric {
        match self {
            MetricUpdate::SlotsTotal(n) => MetricUpdate::SlotsTotal(*n),
            MetricUpdate::SlotsInUse(n) => MetricUpdate::SlotsInUse(*n),
            MetricUpdate::ProjectInFlight(p, n) => MetricUpdate::ProjectInFlight(p@, *n),
            MetricUpdate::ProjectQueueDepth(p, n) => MetricUpdate::ProjectQueueDepth(p@, *n),
            MetricUpdate::ResetRequests(p, o) => MetricUpdate::ResetRequests(p@, *o),
            MetricUpdate::ResetStreamErrors(p) => MetricUpdate::ResetStreamErrors(p@),
            MetricUpdate::ShowQueueWait(p) => MetricUpdate::ShowQueueWait(p@),
            MetricUpdate::ShowUpstreamDuration(p) => MetricUpdate::ShowUpstreamDuration(p@),
            MetricUpdate::ShowFirstToken(p) => MetricUpdate::ShowFirstToken(p@),
            MetricUpdate::ShowStreamDuration(p) => MetricUpdate::ShowStreamDuration(p@),
            MetricUpdate::CountRequest(p, o) => MetricUpdate::CountRequest(p@, *o),
            MetricUpdate::CountCredentialFault(f) => MetricUpdate::CountCredentialFault(*f),
            MetricUpdate::CountStreamError(p) => MetricUpdate::CountStreamError(p@),
            MetricUpdate::ObserveQueueWait(p) => MetricUpdate::ObserveQueueWait(p@),
            MetricUpdate::ObserveUpstreamDuration(p) => MetricUpdate::ObserveUpstreamDuration(p@),
            MetricUpdate::ObserveFirstToken(p) => MetricUpdate::ObserveFirstToken(p@),
            MetricUpdate::ObserveStreamDuration(p) => MetricUpdate::ObserveStreamDuration(p@),
        }
    }
}

/// A list of changes, with the projects' names as characters.
pub open spec fn metrics_of(v: Seq<MetricUpdate<String>>) -> Seq<Metric> {
    v.map_values(|m: MetricUpdate<String>| m@)
}

/// The changes that make a project's measurements appear, all at zero.
pub open spec fn project_start(name: Seq<char>) -> Seq<Metric> {
    seq![
        MetricUpdate::ProjectInFlight(name, 0),
        MetricUpdate::ProjectQueueDepth(name, 0),
        MetricUpdate::ResetRequests(name, Outcome::Success),
        MetricUpdate::ResetRequests(name, Outcome::Rejected),
        MetricUpdate::ResetRequests(name, Outcome::Evicted),
        MetricUpdate::ResetRequests(name, Outcome::Timeout),
        MetricUpdate::ResetRequests(name, Outcome::UpstreamError),
        MetricUpdate::ResetStreamErrors(name),
        MetricUpdate::ShowQueueWait(name),
        MetricUpdate::ShowUpstreamDuration(name),
        MetricUpdate::ShowFirstToken(name),
        MetricUpdate::ShowStreamDuration(name),
    ]
}

/// The same for a list of projects, in order.
pub open spec fn projects_start(names: Seq<Seq<char>>) -> Seq<Metric>
    decreases names.len(),
{
    if names.len() == 0 {
        Seq::empty()
    } else {
        projects_start(names.drop_last()) + project_start(names.last())
    }
}

/// The names of the projects of a configuration.
pub open spec fn project_names(config: ProxyConfig) -> Seq<Seq<char>> {
    Seq::new(config.projects@.len(), |i: int| config.projects@[i].0)
}

impl Outcome {
    /// The word for this outcome in the measurements.
    pub fn label(&self) -> (r: &'static str)
        ensures
            r@ == (match *self {
                Outcome::Success => "success"@,
                Outcome::Rejected => "rejected"@,
                Outcome::Evicted => "evicted"@,
                Outcome::Timeout => "timeout"@,
                Outcome::UpstreamError => "upstream_error"@,
            }),
    {
        match self {
            Outcome::Success => "success",
            Outcome::Rejected => "rejected",
            Outcome::Evicted => "evicted",
            Outcome::Timeout => "timeout",
            Outcome::UpstreamError => "upstream_error",
        }
    }
}

impl CredentialFault {
    /// The word for this fault in the measurements.
    pub fn label(&self) -> (r: &'static str)
        ensures
            r@ == (match *self {
                CredentialFault::NoKey => "no_key"@,
                CredentialFault::UnknownKey => "unknown_key"@,
            }),
    {
        match self {
            CredentialFault::NoKey => "no_key",
            CredentialFault::UnknownKey => "unknown_key",
        }
    }
}

/// Makes all per-project measurements appear from startup, even before any
/// requests arrive.
pub fn init_project_metrics(project_names: &Vec<String>) -> (r: Vec<MetricUpdate<String>>)
    ensures
        metrics_of(r@) == projects_start(texts(project_names@)),
{
    let mut r: Vec<MetricUpdate<String>> = Vec::new();
    let ghost names = texts(project_names@);
    let mut i: usize = 0;
    assert(metrics_of(r@) == projects_start(names.take(0)));
    while i < project_names.len()
        invariant
            i <= project_names.len(),
            names == texts(project_names@),
            metrics_of(r@) == projects_start(names.take(i as int)),
        decreases project_names.len() - i,
    {
        let ghost before = r@;
        let name = &project_names[i];
        r.push(MetricUpdate::ProjectInFlight(name.clone(), 0));
        r.push(MetricUpdate::ProjectQueueDepth(name.clone(), 0));
        r.push(MetricUpdate::ResetRequests(name.clone(), Outcome::Success));
        r.push(MetricUpdate::ResetRequests(name.clone(), Outcome::Rejected));
        r.push(MetricUpdate::ResetRequests(name.clone(), Outcome::Evicted));
        r.push(MetricUpdate::ResetRequests(name.clone(), Outcome::Timeout));
        r.push(MetricUpdate::ResetRequests(name.clone(), Outcome::UpstreamError));
        r.push(MetricUpdate::ResetStreamErrors(name.clone()));
        r.push(MetricUpdate::ShowQueueWait(name.clone()));
        r.push(MetricUpdate::ShowUpstreamDuration(name.clone()));
        r.push(MetricUpdate::ShowFirstToken(name.clone()));
        r.push(MetricUpdate::ShowStreamDuration(name.clone()));
        proof {
            assert(names.take(i + 1).drop_last() == names.take(i as int));
            assert(metrics_of(r@) == metrics_of(before) + project_start(names[i as int]));
        }
        i = i + 1;
    }
    assert(names.take(i as int) == names);
    r
}

/// The measurements at startup: the configured slots, none of them taken, and
/// every project at zero.
pub fn on_start(config: &ProxyConfig) -> (r: Vec<MetricUpdate<String>>)
    ensures
        metrics_of(r@) == seq![
            MetricUpdate::SlotsTotal(config.slots),
            MetricUpdate::SlotsInUse(0),
        ] + projects_start(project_names(*config)),
{
    let mut names: Vec<String> = Vec::new();
    let mut i: usize = 0;
    while i < config.projects.len()
        invariant
            i <= config.projects@.len(),
            texts(names@) == project_names(*config).take(i as int),
        decreases config.projects@.len() - i,
    {
        let name = config.projects.name_at(i).to_owned();
        proof {
            assert(texts(names@.push(name)) == texts(names@).push(name@));
            assert(project_names(*config).take(i + 1) == project_names(*config).take(
                i as int,
            ).push(name@));
        }
        names.push(name);
        i = i + 1;
    }
    assert(texts(names@) == project_names(*config));
    let mut r: Vec<MetricUpdate<String>> = Vec::new();
    r.push(MetricUpdate::SlotsTotal(config.slots));
    r.push(MetricUpdate::SlotsInUse(0));
    let mut rest = init_project_metrics(&names);
    let ghost more = rest@;
    r.append(&mut rest);
    assert(metrics_of(r@) == seq![
        MetricUpdate::SlotsTotal(config.slots),
        MetricUpdate::SlotsInUse(0),
    ] + metrics_of(more));
    r
}

/// The change when a request has joined a queue.
pub fn on_enqueued(project: &str, queue_size: usize) -> (r: Vec<MetricUpdate<String>>)
    ensures
        metrics_of(r@) == seq![MetricUpdate::ProjectQueueDepth(project@, queue_size)],
{
    let mut r: Vec<MetricUpdate<String>> = Vec::new();
    r.push(MetricUpdate::ProjectQueueDepth(project.to_owned(), queue_size));
    assert(metrics_of(r@) == seq![MetricUpdate::ProjectQueueDepth(project@, queue_size)]);
    r
}

/// The changes when a request has got a slot.
pub fn on_dispatched<T>(dispatch: &Dispatch<T>) -> (r: Vec<MetricUpdate<String>>)
    ensures
        metrics_of(r@) == seq![
            MetricUpdate::ProjectQueueDepth(dispatch.permit@, dispatch.queue_size),
            MetricUpdate::ProjectInFlight(dispatch.permit@, dispatch.in_flight),
            MetricUpdate::SlotsInUse(dispatch.slots_in_use),
            MetricUpdate::ObserveQueueWait(dispatch.permit@),
        ],
{
    let name = dispatch.permit.project_name();
    let mut r: Vec<MetricUpdate<String>> = Vec::new();
    r.push(MetricUpdate::ProjectQueueDepth(name.to_owned(), dispatch.queue_size));
    r.push(MetricUpdate::ProjectInFlight(name.to_owned(), dispatch.in_flight));
    r.push(MetricUpdate::SlotsInUse(dispatch.slots_in_use));
    r.push(MetricUpdate::ObserveQueueWait(name.to_owned()));
    assert(metrics_of(r@) == seq![
        MetricUpdate::ProjectQueueDepth(dispatch.permit@, dispatch.queue_size),
        MetricUpdate::ProjectInFlight(dispatch.permit@, dispatch.in_flight),
        MetricUpdate::SlotsInUse(dispatch.slots_in_use),
        MetricUpdate::ObserveQueueWait(dispatch.permit@),
    ]);
    r
}

/// The changes when a slot could not be delivered and goes back.
pub fn on_undelivered<T>(dispatch: &Dispatch<T>) -> (r: Vec<MetricUpdate<String>>)
    requires
        dispatch.in_flight > 0,
        dispatch.slots_in_use > 0,
    ensures
        metrics_of(r@) == seq![
            MetricUpdate::ProjectInFlight(dispatch.permit@, (dispatch.in_flight - 1) as usize),
            MetricUpdate::SlotsInUse((dispatch.slots_in_use - 1) as usize),
        ],
{
    let name = dispatch.permit.project_name();
    let mut r: Vec<MetricUpdate<String>> = Vec::new();
    r.push(MetricUpdate::ProjectInFlight(name.to_owned(), dispatch.in_flight - 1));
    r.push(MetricUpdate::SlotsInUse(dispatch.slots_in_use - 1));
    assert(metrics_of(r@) == seq![
        MetricUpdate::ProjectInFlight(dispatch.permit@, (dispatch.in_flight - 1) as usize),
        MetricUpdate::SlotsInUse((dispatch.slots_in_use - 1) as usize),
    ]);
    r
}

/// The changes when a request has been evicted.
pub fn on_evicted<T>(eviction: &Eviction<T>) -> (r: Vec<MetricUpdate<String>>)
    ensures
        metrics_of(r@) == seq![
            MetricUpdate::CountRequest(eviction.project_name@, Outcome::Evicted),
            MetricUpdate::ObserveQueueWait(eviction.project_name@),
            MetricUpdate::ProjectQueueDepth(eviction.project_name@, eviction.queue_size),
        ],
{
    let mut r: Vec<MetricUpdate<String>> = Vec::new();
    r.push(MetricUpdate::CountRequest(eviction.project_name.clone(), Outcome::Evicted));
    r.push(MetricUpdate::ObserveQueueWait(eviction.project_name.clone()));
    r.push(MetricUpdate::ProjectQueueDepth(eviction.project_name.clone(), eviction.queue_size));
    assert(metrics_of(r@) == seq![
        MetricUpdate::CountRequest(eviction.project_name@, Outcome::Evicted),
        MetricUpdate::ObserveQueueWait(eviction.project_name@),
        MetricUpdate::ProjectQueueDepth(eviction.project_name@, eviction.queue_size),
    ]);
    r
}

/// The changes when a slot has been given back.
pub fn on_released(release: &Release) -> (r: Vec<MetricUpdate<String>>)
    ensures
        metrics_of(r@) == seq![
            MetricUpdate::ProjectInFlight(release.project_name@, release.in_flight),
            MetricUpdate::SlotsInUse(release.slots_in_use),
        ],
{
    let mut r: Vec<MetricUpdate<String>> = Vec::new();
    r.push(MetricUpdate::ProjectInFlight(release.project_name.clone(), release.in_flight));
    r.push(MetricUpdate::SlotsInUse(release.slots_in_use));
    assert(metrics_of(r@) == seq![
        MetricUpdate::ProjectInFlight(release.project_name@, release.in_flight),
        MetricUpdate::SlotsInUse(release.slots_in_use),
    ]);
    r
}

/// Why the crate `prometheus` could not write the measurements out.
#[verifier::external_type_specification]
#[verifier::external_body]
pub struct ExPrometheusError(prometheus::Error);

/// `prometheus::gather` and `prometheus::TextEncoder`: all measurements of the
/// default registry as text. What they are rests on what has been registered
/// and measured in the process until now, so nothing is stated of the text, nor
/// of when it cannot be written.
#[verifier::external_body]
pub fn encode_metrics() -> (r: Result<String, prometheus::Error>)
{
    let mut buffer = Vec::new();
    prometheus::TextEncoder::new().encode(&prometheus::gather(), &mut buffer)?;
    Ok(String::from_utf8(buffer).unwrap())
}

} // verus!
