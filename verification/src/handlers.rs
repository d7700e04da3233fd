//! What the gateway answers: who a request belongs to, what is sent on, and the
//! reply for each way in which a request can end.
use axum::http::HeaderMap;
use vstd::prelude::*;
use vstd::string::*;
use crate::config::{owner_of, ProxyConfig};
use crate::headers::{first_text, header_fields, header_text, text_view};
use crate::metrics::{encode_metrics, metrics_of, CredentialFault, Metric, MetricUpdate};
use crate::queue::ClassBasedScheduler;
use crate::text::strip_prefix;

verus! {

/// What went wrong, for the client to read.
#[derive(Debug, PartialEq, Eq)]
pub struct ErrorDetail {
    pub message: String,
    pub kind: String,
}

/// A reply of the gateway's own.
#[derive(Debug, PartialEq, Eq)]
pub struct Reply {
    pub status: u16,
    pub error: Option<ErrorDetail>,
    pub headers: Vec<(String, String)>,
}

/// An error as characters.
pub struct ErrorView {
    pub message: Seq<char>,
    pub kind: Seq<char>,
}

/// A reply as plain values.
#[verifier::ext_equal]
pub struct ReplyView {
    pub status: u16,
    pub error: Option<ErrorView>,
    pub headers: Seq<(Seq<char>, Seq<char>)>,
}

/// A list of header fields as characters.
pub open spec fn pairs_of(v: Seq<(String, String)>) -> Seq<(Seq<char>, Seq<char>)> {
    v.map_values(|f: (String, String)| (f.0@, f.1@))
}

impl View for Reply {
    type V = ReplyView;

    open spec fn view(&self) -> ReplyView {
        ReplyView {
            status: self.status,
            error: match self.error {
                Some(e) => Some(ErrorView { message: e.message@, kind: e.kind@ }),
                None => None,
            },
            headers: pairs_of(self.headers@),
        }
    }
}

/// A reply with a status only.
pub open spec fn bare(status: u16) -> ReplyView {
    ReplyView { status, error: None, headers: Seq::empty() }
}

/// A reply with an error and no further header fields.
pub open spec fn failure(status: u16, kind: Seq<char>, message: Seq<char>) -> ReplyView {
    ReplyView { status, error: Some(ErrorView { message, kind }), headers: Seq::empty() }
}

/// The reply with one more header field.
pub open spec fn with_header(reply: ReplyView, name: Seq<char>, value: Seq<char>) -> ReplyView {
    ReplyView { headers: reply.headers.push((name, value)), ..reply }
}

/// A reply with a status only.
pub fn bare_response(status: u16) -> (r: Reply)
    ensures
        r@ == bare(status),
{
    let r = Reply { status, error: None, headers: Vec::new() };
    assert(r@ =~= bare(status));
    r
}

/// A reply with an error.
pub fn error_response(status: u16, error_type: &str, message: String) -> (r: Reply)
    ensures
        r@ == failure(status, error_type@, message@),
{
    let r = Reply {
        status,
        error: Some(ErrorDetail { message, kind: error_type.to_owned() }),
        headers: Vec::new(),
    };
    assert(r@ =~= failure(status, error_type@, message@));
    r
}

impl Reply {
    /// The reply with one more header field.
    pub fn with_header(self, name: &str, value: &str) -> (r: Reply)
        ensures
            r@ == with_header(self@, name@, value@),
    {
        let ghost before = self@;
        let mut reply = self;
        reply.headers.push((name.to_owned(), value.to_owned()));
        assert(reply@.headers =~= before.headers.push((name@, value@)));
        reply
    }
}

/// The API key that a request carries: the bearer token, or else the key field.
pub open spec fn client_key_of(fields: Seq<(Seq<char>, Seq<u8>)>) -> Option<Seq<char>> {
    match first_text(fields, "authorization"@) {
        Some(text) if "Bearer "@.is_prefix_of(text) => Some(text.skip(7)),
        _ => first_text(fields, "x-api-key"@),
    }
}

/// The project that a request belongs to, or the refusal.
pub open spec fn resolution(fields: Seq<(Seq<char>, Seq<u8>)>, config: ProxyConfig) -> Result<
    Seq<char>,
    ReplyView,
> {
    match client_key_of(fields) {
        None => match config.unauthenticated.target() {
            Some(name) => Ok(name),
            None => Err(failure(403, "no_credentials"@, "No API key provided"@)),
        },
        Some(key) => match owner_of(config.projects@, key) {
            Some(name) => Ok(name),
            None => match config.unauthenticated.target() {
                Some(name) => Ok(name),
                None => Err(failure(403, "unknown_key"@, "Unknown API key"@)),
            },
        },
    }
}

/// The measurements for finding out where a request belongs.
pub open spec fn resolution_metrics(
    fields: Seq<(Seq<char>, Seq<u8>)>,
    config: ProxyConfig,
) -> Seq<Metric> {
    match client_key_of(fields) {
        None => seq![MetricUpdate::CountCredentialFault(CredentialFault::NoKey)],
        Some(key) => if owner_of(config.projects@, key) is Some {
            Seq::empty()
        } else {
            seq![MetricUpdate::CountCredentialFault(CredentialFault::UnknownKey)]
        },
    }
}

/// The API key that a request carries.
pub fn client_key(headers: &HeaderMap) -> (r: Option<String>)
    ensures
        text_view(r) == client_key_of(header_fields(*headers)),
{
    proof {
        reveal_strlit("authorization");
        reveal_strlit("x-api-key");
        reveal_strlit("Bearer ");
    }
    if let Some(text) = header_text(headers, "authorization") {
        if let Some(key) = strip_prefix(text.as_str(), "Bearer ") {
            return Some(key.to_owned());
        }
    }
    header_text(headers, "x-api-key")
}

/// A decision, and the measurements that go with it: on with `A`, or an end
/// with a reply.
pub struct Step<A> {
    pub next: Result<A, Reply>,
    pub metrics: Vec<MetricUpdate<String>>,
}

/// A list of one measurement.
pub(crate) fn one_metric(m: MetricUpdate<String>) -> (r: Vec<MetricUpdate<String>>)
    ensures
        metrics_of(r@) == seq![m@],
{
    let mut r: Vec<MetricUpdate<String>> = Vec::new();
    r.push(m);
    assert(metrics_of(r@) == seq![m@]);
    r
}

/// A list without measurements.
pub(crate) fn no_metrics() -> (r: Vec<MetricUpdate<String>>)
    ensures
        metrics_of(r@) == Seq::<Metric>::empty(),
{
    let r: Vec<MetricUpdate<String>> = Vec::new();
    assert(metrics_of(r@) == Seq::<Metric>::empty());
    r
}

/// Finds the project of a request by its Authorization or x-api-key header.
pub fn resolve_project<'a>(headers: &HeaderMap, config: &'a ProxyConfig) -> (r: Step<&'a str>)
    ensures
        match r.next {
            Ok(name) => resolution(header_fields(*headers), *config) == Ok::<Seq<char>, ReplyView>(
                name@,
            ),
            Err(reply) => resolution(header_fields(*headers), *config) == Err::<
                Seq<char>,
                ReplyView,
            >(reply@),
        },
        metrics_of(r.metrics@) == resolution_metrics(header_fields(*headers), *config),
{
    match client_key(headers) {
        None => {
            let metrics = one_metric(MetricUpdate::CountCredentialFault(CredentialFault::NoKey));
            match config.unauthenticated.project_name() {
                Some(name) => Step { next: Ok(name), metrics },
                None => Step {
                    next: Err(
                        error_response(403, "no_credentials", "No API key provided".to_owned()),
                    ),
                    metrics,
                },
            }
        },
        Some(key) => match config.project_for_key(key.as_str()) {
            Some(name) => Step { next: Ok(name), metrics: no_metrics() },
            None => {
                let metrics = one_metric(
                    MetricUpdate::CountCredentialFault(CredentialFault::UnknownKey),
                );
                match config.unauthenticated.project_name() {
                    Some(name) => Step { next: Ok(name), metrics },
                    None => Step {
                        next: Err(
                            error_response(403, "unknown_key", "Unknown API key".to_owned()),
                        ),
                        metrics,
                    },
                }
            },
        },
    }
}

/// Whether the gateway is up: it is.
pub fn health_check() -> (status: u16)
    ensures
        status == 200,
{
    200
}

/// The measurements as text, or the status to answer with where they could not
/// be written out.
pub fn metrics_reply<E>(encoded: Result<String, E>) -> (r: Result<String, u16>)
    ensures
        match encoded {
            Ok(text) => r == Ok::<String, u16>(text),
            Err(_) => r == Err::<String, u16>(500),
        },
{
    match encoded {
        Ok(text) => Ok(text),
        Err(_) => Err(500),
    }
}

/// The measurements as text, or the status to answer with where they could not
/// be written out.
pub fn metrics_handler() -> (r: Result<String, u16>)
    ensures
        r matches Err(status) ==> status == 500,
        exists|encoded: Result<String, prometheus::Error>| #[trigger]
            call_ensures(encode_metrics, (), encoded) && r == (match encoded {
                Ok(text) => Ok::<String, u16>(text),
                Err(_) => Err::<String, u16>(500),
            }),
{
    let encoded = encode_metrics();
    assert(call_ensures(encode_metrics, (), encoded));
    metrics_reply(encoded)
}

/// How one project stands.
#[derive(Debug, PartialEq, Eq)]
pub struct ProjectStatus {
    pub name: String,
    pub queue_size: usize,
    pub in_flight: usize,
}

/// How the gateway stands.
#[derive(Debug, PartialEq, Eq)]
pub struct StatusReport {
    pub status: String,
    pub slots: usize,
    pub projects: Vec<ProjectStatus>,
}

/// How the gateway stands: for each configured project, how many requests wait
/// and how many slots it holds.
pub fn status<T>(config: &ProxyConfig, scheduler: &ClassBasedScheduler<T>) -> (r: StatusReport)
    requires
        scheduler@.wf(),
    ensures
        r.status@ == "ok"@,
        r.slots == config.slots,
        r.projects@.len() == config.projects@.len(),
        forall|i: int|
            0 <= i < config.projects@.len() ==> {
                let name = config.projects@[i].0;
                let p = #[trigger] r.projects@[i];
                &&& p.name@ == name
                &&& if scheduler@.has_project(name) {
                    let q = scheduler@.projects[scheduler@.position_of(name)];
                    p.queue_size == q.items.len() && p.in_flight == q.in_flight
                } else {
                    p.queue_size == 0 && p.in_flight == 0
                }
            },
{
    let mut projects: Vec<ProjectStatus> = Vec::new();
    let mut i: usize = 0;
    while i < config.projects.len()
        invariant
            i <= config.projects@.len(),
            projects@.len() == i,
            scheduler@.wf(),
            forall|k: int|
                0 <= k < i ==> {
                    let name = config.projects@[k].0;
                    let p = #[trigger] projects@[k];
                    &&& p.name@ == name
                    &&& if scheduler@.has_project(name) {
                        let q = scheduler@.projects[scheduler@.position_of(name)];
                        p.queue_size == q.items.len() && p.in_flight == q.in_flight
                    } else {
                        p.queue_size == 0 && p.in_flight == 0
                    }
                },
        decreases config.projects@.len() - i,
    {
        let name = config.projects.name_at(i);
        projects.push(
            ProjectStatus {
                name: name.to_owned(),
                queue_size: scheduler.queue_size(name),
                in_flight: scheduler.in_flight_count(name),
            },
        );
        i = i + 1;
    }
    StatusReport { status: "ok".to_owned(), slots: config.slots, projects }
}

} // verus!
