//! The course of one chat completion, from its arrival to its reply. Each stage
//! is a type of its own, and takes what has happened outside to the next stage
//! or to a reply. The type `P` is the caller's hold on the slot: whoever has a
//! value of it occupies the slot.
use axum::http::HeaderMap;
use vstd::prelude::*;
use vstd::string::*;
use vstd::utf8::encode_utf8;
use crate::config::ProxyConfig;
use crate::handlers::{
    bare, bare_response, error_response, failure, no_metrics, one_metric, pairs_of, resolution,
    resolution_metrics, resolve_project, with_header, Reply, ReplyView, Step,
};
use crate::headers::{
    append_passing, fields_of, first_text, first_value, header_fields, header_text, header_value,
    passing,
};
use crate::metrics::{metrics_of, on_enqueued, Metric, MetricUpdate, Outcome};
use crate::queue::QueueError;
use crate::sse::StreamProgress;
use crate::text::{contains, occurs_in};

verus! {

/// A lower-case hexadecimal digit.
pub open spec fn is_hex(c: char) -> bool {
    '0' <= c <= '9' || 'a' <= c <= 'f'
}

/// Whether a text has the form of a random request id: five groups of
/// hexadecimal digits, joined by hyphens, with the marks of a random number.
pub open spec fn is_request_id(s: Seq<char>) -> bool {
    &&& s.len() == 36
    &&& forall|i: int|
        0 <= i < 36 ==> if i == 8 || i == 13 || i == 18 || i == 23 {
            #[trigger] s[i] == '-'
        } else {
            is_hex(s[i])
        }
    &&& s[14] == '4'
    &&& s[19] == '8' || s[19] == '9' || s[19] == 'a' || s[19] == 'b'
}

/// `uuid::Uuid::new_v4` and its `to_string`: a random id in its usual form.
/// Which one, chance decides.
#[verifier::external_body]
fn new_request_id() -> (r: String)
    ensures
        is_request_id(r@),
{
    uuid::Uuid::new_v4().to_string()
}

/// Whether an id is one that a new request can get.
pub closed spec fn may_be_new_id(id: Seq<char>) -> bool {
    exists|s: String| #[trigger] call_ensures(new_request_id, (), s) && s@ == id
}

/// A new id is what the generator gives, unchanged.
proof fn law_a_new_id_is_taken_as_it_comes(id: Seq<char>)
    ensures
        may_be_new_id(id) <==> exists|s: String| #[trigger]
            call_ensures(new_request_id, (), s) && s@ == id,
        may_be_new_id(id) ==> is_request_id(id),
{
}

/// A request: its id and its project.
pub struct RequestView {
    pub id: Seq<char>,
    pub project: Seq<char>,
}

/// A request that belongs to a project and has not been queued yet.
pub struct Admitted {
    id: String,
    project: String,
}

/// A request that waits for its slot.
pub struct Queued {
    id: String,
    project: String,
}

/// A request that has its slot and goes upstream.
pub struct Granted<P> {
    id: String,
    project: String,
    permit: P,
}

/// A request whose successful response is being read, to be passed on in one
/// piece.
pub struct PendingBody<P> {
    id: String,
    project: String,
    permit: P,
    status: u16,
    headers: Vec<(String, Vec<u8>)>,
}

/// How a response comes.
pub enum Upstream<P> {
    /// As a stream of events
    Stream(StreamStart<P>),
    /// In one piece
    Body(PendingBody<P>),
}

/// A response that is streamed. The slot stays taken as long as the stream lasts.
pub struct StreamStart<P> {
    pub permit: P,
    pub progress: StreamProgress,
    pub headers: Vec<(String, String)>,
}

/// A response that is passed on in one piece, after which the slot is free.
pub struct Relayed<P> {
    pub permit: P,
    pub status: u16,
    pub headers: Vec<(String, Vec<u8>)>,
}

/// What came of sending a request upstream.
pub enum UpstreamAnswer<'a> {
    /// A response with this status and these header fields
    Response(u16, &'a HeaderMap),
    /// No response
    Failed,
    /// No response while there was time
    Elapsed,
}

/// What came of reading a response.
pub enum BodyRead {
    /// It was read to its end
    Complete,
    /// It broke off
    Failed,
    /// It did not end while there was time
    Elapsed,
}

/// What is sent upstream besides the body.
pub struct Forward {
    pub url: String,
    pub headers: Vec<(String, Vec<u8>)>,
}

impl View for Admitted {
    type V = RequestView;

    closed spec fn view(&self) -> RequestView {
        RequestView { id: self.id@, project: self.project@ }
    }
}

impl View for Queued {
    type V = RequestView;

    closed spec fn view(&self) -> RequestView {
        RequestView { id: self.id@, project: self.project@ }
    }
}

impl<P> View for Granted<P> {
    type V = RequestView;

    closed spec fn view(&self) -> RequestView {
        RequestView { id: self.id@, project: self.project@ }
    }
}

impl<P> View for PendingBody<P> {
    type V = RequestView;

    closed spec fn view(&self) -> RequestView {
        RequestView { id: self.id@, project: self.project@ }
    }
}

/// The reply for a request that could not be queued.
pub open spec fn enqueue_refusal(error: QueueError, request: RequestView) -> ReplyView {
    match error {
        QueueError::QueueFull(_) => with_header(
            with_header(
                failure(503, "queue_full"@, "Queue is full for project: "@ + request.project),
                "retry-after"@,
                "5"@,
            ),
            "x-request-id"@,
            request.id,
        ),
        _ => bare(500),
    }
}

/// The reply for a request that was queued and got no slot.
pub open spec fn slot_refusal(error: QueueError, request: RequestView) -> ReplyView {
    match error {
        QueueError::Evicted(_) => with_header(
            with_header(
                failure(
                    429,
                    "evicted"@,
                    "Request evicted due to higher priority traffic (project: "@ + request.project
                        + ")"@,
                ),
                "retry-after"@,
                "5"@,
            ),
            "x-request-id"@,
            request.id,
        ),
        QueueError::Timeout(_) => with_header(
            failure(
                504,
                "timeout"@,
                "Request timed out waiting for a slot (project: "@ + request.project + ")"@,
            ),
            "x-request-id"@,
            request.id,
        ),
        _ => bare(500),
    }
}

/// The reply for a request whose time ran out while it was being served.
pub open spec fn serving_timeout(request: RequestView) -> ReplyView {
    with_header(
        failure(
            504,
            "timeout"@,
            "Request timed out while being served (project: "@ + request.project + ")"@,
        ),
        "x-request-id"@,
        request.id,
    )
}

/// Whether a status means success.
pub open spec fn success(status: u16) -> bool {
    200 <= status < 300
}

/// Whether a response is a stream of events.
pub open spec fn event_stream(fields: Seq<(Seq<char>, Seq<u8>)>) -> bool {
    match first_text(fields, "content-type"@) {
        Some(text) => occurs_in("text/event-stream"@, text),
        None => false,
    }
}

/// The credentials that go upstream: the configured key, or else what the
/// client sent.
pub open spec fn upstream_credentials(
    fields: Seq<(Seq<char>, Seq<u8>)>,
    config: ProxyConfig,
) -> Seq<(Seq<char>, Seq<u8>)> {
    match config.upstream.api_key {
        Some(key) => seq![("authorization"@, encode_utf8("Bearer "@ + key@))],
        None => match first_value(fields, "authorization"@) {
            Some(value) => seq![("authorization"@, value)],
            None => Seq::empty(),
        },
    }
}

/// The header fields that go upstream.
pub open spec fn upstream_fields(
    fields: Seq<(Seq<char>, Seq<u8>)>,
    config: ProxyConfig,
) -> Seq<(Seq<char>, Seq<u8>)> {
    upstream_credentials(fields, config) + passing(fields, seq!["x-"@])
}

/// The header fields of a response that is passed on.
pub open spec fn relayed_fields(fields: Seq<(Seq<char>, Seq<u8>)>, id: Seq<char>) -> Seq<
    (Seq<char>, Seq<u8>),
> {
    seq![("x-request-id"@, encode_utf8(id))] + passing(fields, seq!["x-"@, "openai-"@])
}

/// The header fields of a streamed response.
pub open spec fn stream_fields(id: Seq<char>) -> Seq<(Seq<char>, Seq<char>)> {
    seq![
        ("x-request-id"@, id),
        ("cache-control"@, "no-cache"@),
        ("x-accel-buffering"@, "no"@),
    ]
}

/// Whether a response is a stream of events.
pub fn is_event_stream(headers: &HeaderMap) -> (r: bool)
    ensures
        r == event_stream(header_fields(*headers)),
{
    proof {
        reveal_strlit("content-type");
    }
    match header_text(headers, "content-type") {
        Some(text) => contains(text.as_str(), "text/event-stream"),
        None => false,
    }
}

/// Whether a status means success.
pub fn is_success(status: u16) -> (r: bool)
    ensures
        r == success(status),
{
    status >= 200 && status < 300
}

/// The reply for a request whose time ran out while it was being served.
fn serving_timeout_response(id: &str, project: &str) -> (r: Reply)
    ensures
        r@ == serving_timeout(RequestView { id: id@, project: project@ }),
{
    let message = "Request timed out while being served (project: ".to_owned().concat(
        project,
    ).concat(")");
    error_response(504, "timeout", message).with_header("x-request-id", id)
}

/// How much of a time limit is left.
pub open spec fn left_of(limit: nat, elapsed: nat) -> nat {
    if elapsed >= limit {
        0
    } else {
        (limit - elapsed) as nat
    }
}

/// How much of its time a request has left, in nanoseconds: `limit` is what it
/// may take in all, and `elapsed` what has gone by since it arrived. Each wait,
/// for the slot, for the upstream and for each piece of the response, may take
/// this long.
pub fn time_left(limit: u128, elapsed: u128) -> (r: u128)
    ensures
        r == left_of(limit as nat, elapsed as nat),
{
    if elapsed >= limit {
        0
    } else {
        limit - elapsed
    }
}

/// A request arrives under a given id: it belongs to a project, or is refused.
pub fn receive_as(headers: &HeaderMap, config: &ProxyConfig, request_id: String) -> (r: Step<
    Admitted,
>)
    ensures
        match r.next {
            Ok(admitted) => {
                &&& admitted@.id == request_id@
                &&& resolution(header_fields(*headers), *config) == Ok::<Seq<char>, ReplyView>(
                    admitted@.project,
                )
            },
            Err(reply) => resolution(header_fields(*headers), *config) == Err::<
                Seq<char>,
                ReplyView,
            >(reply@),
        },
        metrics_of(r.metrics@) == resolution_metrics(header_fields(*headers), *config),
{
    let resolved = resolve_project(headers, config);
    match resolved.next {
        Ok(name) => Step {
            next: Ok(Admitted { id: request_id, project: name.to_owned() }),
            metrics: resolved.metrics,
        },
        Err(reply) => Step { next: Err(reply), metrics: resolved.metrics },
    }
}

/// A request arrives, and gets a new id.
pub fn receive(headers: &HeaderMap, config: &ProxyConfig) -> (r: Step<Admitted>)
    ensures
        match r.next {
            Ok(admitted) => {
                &&& is_request_id(admitted@.id)
                &&& may_be_new_id(admitted@.id)
                &&& resolution(header_fields(*headers), *config) == Ok::<Seq<char>, ReplyView>(
                    admitted@.project,
                )
            },
            Err(reply) => resolution(header_fields(*headers), *config) == Err::<
                Seq<char>,
                ReplyView,
            >(reply@),
        },
        metrics_of(r.metrics@) == resolution_metrics(header_fields(*headers), *config),
{
    let id = new_request_id();
    assert(call_ensures(new_request_id, (), id));
    receive_as(headers, config, id)
}

impl Admitted {
    /// The project whose queue the request goes to.
    pub fn project_name(&self) -> (r: &str)
        ensures
            r@ == self@.project,
    {
        self.project.as_str()
    }

    /// The id of the request.
    pub fn request_id(&self) -> (r: &str)
        ensures
            r@ == self@.id,
    {
        self.id.as_str()
    }

    /// The request has been put into its queue, or could not be.
    pub fn enqueued(self, result: Result<usize, QueueError>) -> (r: Step<Queued>)
        ensures
            match result {
                Ok(queue_size) => {
                    &&& r.next matches Ok(queued)
                    &&& queued@ == self@
                    &&& metrics_of(r.metrics@) == seq![
                        MetricUpdate::ProjectQueueDepth(self@.project, queue_size),
                    ]
                },
                Err(error) => {
                    &&& r.next matches Err(reply)
                    &&& reply@ == enqueue_refusal(error, self@)
                    &&& metrics_of(r.metrics@) == if error is QueueFull {
                        seq![MetricUpdate::CountRequest(self@.project, Outcome::Rejected)]
                    } else {
                        Seq::empty()
                    }
                },
            },
    {
        match result {
            Ok(queue_size) => {
                let metrics = on_enqueued(self.project.as_str(), queue_size);
                Step { next: Ok(Queued { id: self.id, project: self.project }), metrics }
            },
            Err(QueueError::QueueFull(_)) => {
                let reply = error_response(
                    503,
                    "queue_full",
                    "Queue is full for project: ".to_owned().concat(self.project.as_str()),
                ).with_header("retry-after", "5").with_header("x-request-id", self.id.as_str());
                Step {
                    next: Err(reply),
                    metrics: one_metric(
                        MetricUpdate::CountRequest(self.project, Outcome::Rejected),
                    ),
                }
            },
            Err(_) => Step { next: Err(bare_response(500)), metrics: no_metrics() },
        }
    }
}

impl Queued {
    /// The wait for a slot has ended, with a slot or without.
    pub fn settled<P>(self, answer: Result<P, QueueError>) -> (r: Step<Granted<P>>)
        ensures
            match answer {
                Ok(permit) => {
                    &&& r.next matches Ok(granted)
                    &&& granted@ == self@
                    &&& granted.permit() == permit
                    &&& metrics_of(r.metrics@) == Seq::<Metric>::empty()
                },
                Err(error) => {
                    &&& r.next matches Err(reply)
                    &&& reply@ == slot_refusal(error, self@)
                    &&& metrics_of(r.metrics@) == if error is Timeout {
                        seq![MetricUpdate::CountRequest(self@.project, Outcome::Timeout)]
                    } else {
                        Seq::empty()
                    }
                },
            },
    {
        match answer {
            Ok(permit) => Step {
                next: Ok(Granted { id: self.id, project: self.project, permit }),
                metrics: no_metrics(),
            },
            Err(QueueError::Evicted(_)) => {
                let message = "Request evicted due to higher priority traffic (project: ".to_owned()
                    .concat(self.project.as_str()).concat(")");
                let reply = error_response(429, "evicted", message).with_header(
                    "retry-after",
                    "5",
                ).with_header("x-request-id", self.id.as_str());
                Step { next: Err(reply), metrics: no_metrics() }
            },
            Err(QueueError::Timeout(_)) => {
                let message = "Request timed out waiting for a slot (project: ".to_owned().concat(
                    self.project.as_str(),
                ).concat(")");
                let reply = error_response(504, "timeout", message).with_header(
                    "x-request-id",
                    self.id.as_str(),
                );
                Step {
                    next: Err(reply),
                    metrics: one_metric(MetricUpdate::CountRequest(self.project, Outcome::Timeout)),
                }
            },
            Err(_) => Step { next: Err(bare_response(500)), metrics: no_metrics() },
        }
    }
}

impl<P> Granted<P> {
    /// The caller's hold on the slot.
    pub closed spec fn permit(self) -> P {
        self.permit
    }

    /// What is sent upstream besides the body.
    pub fn forward(&self, headers: &HeaderMap, config: &ProxyConfig) -> (r: Forward)
        ensures
            r.url@ == config.upstream.url@ + "/v1/chat/completions"@,
            fields_of(r.headers@) == upstream_fields(header_fields(*headers), *config),
    {
        proof {
            reveal_strlit("authorization");
        }
        let mut list: Vec<(String, Vec<u8>)> = Vec::new();
        match &config.upstream.api_key {
            Some(key) => {
                let value = "Bearer ".to_owned().concat(key.as_str());
                list.push(("authorization".to_owned(), value.as_str().as_bytes_vec()));
            },
            None => {
                if let Some(value) = header_value(headers, "authorization") {
                    list.push(("authorization".to_owned(), value));
                }
            },
        }
        assert(fields_of(list@) =~= upstream_credentials(header_fields(*headers), *config));
        let mut prefixes: Vec<&str> = Vec::new();
        prefixes.push("x-");
        assert(prefixes@.map_values(|p: &str| p@) =~= seq!["x-"@]);
        append_passing(&mut list, headers, &prefixes);
        Forward {
            url: config.upstream.url.clone().concat("/v1/chat/completions"),
            headers: list,
        }
    }

    /// The upstream has answered with a status and header fields, or not at all,
    /// or not while there was time. An error of the upstream is not passed on: it
    /// is answered like an upstream that cannot be reached, with a status only.
    /// Its body is not read, so there is no time of a complete response to
    /// measure. A stream starts with nothing kept, so that its first piece is read
    /// as it comes.
    pub fn answered(self, answer: UpstreamAnswer) -> (r: Step<Upstream<P>>)
        ensures
            match answer {
                UpstreamAnswer::Elapsed => {
                    &&& r.next matches Err(reply)
                    &&& reply@ == serving_timeout(self@)
                    &&& metrics_of(r.metrics@) == seq![
                        MetricUpdate::CountRequest(self@.project, Outcome::Timeout),
                    ]
                },
                UpstreamAnswer::Failed => {
                    &&& r.next matches Err(reply)
                    &&& reply@ == bare(502)
                    &&& metrics_of(r.metrics@) == seq![
                        MetricUpdate::CountRequest(self@.project, Outcome::UpstreamError),
                    ]
                },
                UpstreamAnswer::Response(status, headers) => if !success(status) {
                    &&& r.next matches Err(reply)
                    &&& reply@ == bare(502)
                    &&& metrics_of(r.metrics@) == seq![
                        MetricUpdate::CountRequest(self@.project, Outcome::UpstreamError),
                    ]
                } else if !event_stream(header_fields(*headers)) {
                    &&& r.next matches Ok(Upstream::Body(pending))
                    &&& pending@ == self@
                    &&& pending.permit() == self.permit()
                    &&& pending.status() == status
                    &&& pending.fields() == relayed_fields(header_fields(*headers), self@.id)
                    &&& metrics_of(r.metrics@) == Seq::<Metric>::empty()
                } else {
                    &&& r.next matches Ok(Upstream::Stream(start))
                    &&& start.permit == self.permit()
                    &&& start.progress.project() == self@.project
                    &&& start.progress.kept() == Seq::<u8>::empty()
                    &&& !start.progress.started()
                    &&& !start.progress.ended()
                    &&& pairs_of(start.headers@) == stream_fields(self@.id)
                    &&& metrics_of(r.metrics@) == Seq::<Metric>::empty()
                },
            },
    {
        let (status, headers) = match answer {
            UpstreamAnswer::Response(status, headers) => (status, headers),
            UpstreamAnswer::Elapsed => {
                return Step {
                    next: Err(
                        serving_timeout_response(self.id.as_str(), self.project.as_str()),
                    ),
                    metrics: one_metric(MetricUpdate::CountRequest(self.project, Outcome::Timeout)),
                };
            },
            UpstreamAnswer::Failed => {
                return Step {
                    next: Err(bare_response(502)),
                    metrics: one_metric(
                        MetricUpdate::CountRequest(self.project, Outcome::UpstreamError),
                    ),
                };
            },
        };
        if !is_success(status) {
            return Step {
                next: Err(bare_response(502)),
                metrics: one_metric(
                    MetricUpdate::CountRequest(self.project, Outcome::UpstreamError),
                ),
            };
        }
        if !is_event_stream(headers) {
            let mut list: Vec<(String, Vec<u8>)> = Vec::new();
            list.push(("x-request-id".to_owned(), self.id.as_str().as_bytes_vec()));
            assert(fields_of(list@) =~= seq![("x-request-id"@, encode_utf8(self@.id))]);
            let mut prefixes: Vec<&str> = Vec::new();
            prefixes.push("x-");
            prefixes.push("openai-");
            assert(prefixes@.map_values(|p: &str| p@) =~= seq!["x-"@, "openai-"@]);
            append_passing(&mut list, headers, &prefixes);
            return Step {
                next: Ok(
                    Upstream::Body(
                        PendingBody {
                            id: self.id,
                            project: self.project,
                            permit: self.permit,
                            status,
                            headers: list,
                        },
                    ),
                ),
                metrics: no_metrics(),
            };
        }
        let mut list: Vec<(String, String)> = Vec::new();
        list.push(("x-request-id".to_owned(), self.id.clone()));
        list.push(("cache-control".to_owned(), "no-cache".to_owned()));
        list.push(("x-accel-buffering".to_owned(), "no".to_owned()));
        assert(pairs_of(list@) =~= stream_fields(self@.id));
        Step {
            next: Ok(
                Upstream::Stream(
                    StreamStart {
                        permit: self.permit,
                        progress: StreamProgress::new(self.project.as_str()),
                        headers: list,
                    },
                ),
            ),
            metrics: no_metrics(),
        }
    }
}

impl<P> PendingBody<P> {
    /// Only a successful response is passed on.
    #[verifier::type_invariant]
    closed spec fn inv(self) -> bool {
        success(self.status)
    }

    /// The caller's hold on the slot.
    pub closed spec fn permit(self) -> P {
        self.permit
    }

    /// The status of the response.
    pub closed spec fn status(self) -> u16 {
        self.status
    }

    /// The header fields to pass on.
    pub closed spec fn fields(self) -> Seq<(Seq<char>, Seq<u8>)> {
        fields_of(self.headers@)
    }

    /// The response has been read to its end, or could not be, or not while
    /// there was time.
    pub fn finished(self, read: BodyRead) -> (r: Step<Relayed<P>>)
        ensures
            read is Complete ==> {
                &&& r.next matches Ok(relayed)
                &&& relayed.permit == self.permit()
                &&& relayed.status == self.status()
                &&& success(relayed.status)
                &&& fields_of(relayed.headers@) == self.fields()
                &&& metrics_of(r.metrics@) == seq![
                    MetricUpdate::ObserveUpstreamDuration(self@.project),
                    MetricUpdate::CountRequest(self@.project, Outcome::Success),
                ]
            },
            read is Failed ==> {
                &&& r.next matches Err(reply)
                &&& reply@ == bare(502)
                &&& metrics_of(r.metrics@) == Seq::<Metric>::empty()
            },
            read is Elapsed ==> {
                &&& r.next matches Err(reply)
                &&& reply@ == serving_timeout(self@)
                &&& metrics_of(r.metrics@) == seq![
                    MetricUpdate::CountRequest(self@.project, Outcome::Timeout),
                ]
            },
    {
        match read {
            BodyRead::Complete => {},
            BodyRead::Failed => {
                return Step { next: Err(bare_response(502)), metrics: no_metrics() };
            },
            BodyRead::Elapsed => {
                return Step {
                    next: Err(
                        serving_timeout_response(self.id.as_str(), self.project.as_str()),
                    ),
                    metrics: one_metric(MetricUpdate::CountRequest(self.project, Outcome::Timeout)),
                };
            },
        }
        proof {
            use_type_invariant(&self);
        }
        let mut metrics: Vec<MetricUpdate<String>> = Vec::new();
        metrics.push(MetricUpdate::ObserveUpstreamDuration(self.project.clone()));
        metrics.push(MetricUpdate::CountRequest(self.project, Outcome::Success));
        assert(metrics_of(metrics@) == seq![
            MetricUpdate::ObserveUpstreamDuration(self@.project),
            MetricUpdate::CountRequest(self@.project, Outcome::Success),
        ]);
        Step {
            next: Ok(
                Relayed { permit: self.permit, status: self.status, headers: self.headers },
            ),
            metrics,
        }
    }
}

} // verus!
