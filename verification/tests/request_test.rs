use axum::http::{HeaderMap, HeaderName, HeaderValue};
use llm_gateway::chat::{
    is_event_stream, is_success, receive, receive_as, time_left, Admitted, BodyRead, Granted,
    Queued, StreamStart, Upstream, UpstreamAnswer,
};
use llm_gateway::config::{
    ProjectConfig, ProxyConfig, RejectLiteral, ServerConfig, UnauthenticatedPolicy, UpstreamConfig,
};
use llm_gateway::handlers::{
    bare_response, client_key, error_response, health_check, metrics_handler, metrics_reply,
    resolve_project, status, ErrorDetail, ProjectStatus, Reply,
};
use llm_gateway::headers::header_text;
use llm_gateway::metrics::{CredentialFault, MetricUpdate, Outcome};
use llm_gateway::name_map::NameMap;
use llm_gateway::queue::{ClassBasedScheduler, Dispatch, QueueError};
use llm_gateway::sse::SseEvent;
use std::sync::Arc;
use std::time::Duration;

fn create_test_config() -> ProxyConfig {
    let mut projects = NameMap::new();
    projects.insert(
        "test".to_string(),
        ProjectConfig {
            priority: 1,
            share: 1,
            max_slots: Some(10),
            timeout: Some(Duration::from_secs(30)),
            api_keys: vec!["sk-test-key".to_string()],
        },
    );
    ProxyConfig {
        server: ServerConfig { host: "127.0.0.1".to_string(), port: 0 },
        upstream: UpstreamConfig { url: "http://localhost:8000".to_string(), api_key: None },
        slots: 10,
        default_timeout: Duration::from_secs(30),
        unauthenticated: UnauthenticatedPolicy::Reject(RejectLiteral::Reject),
        projects,
    }
}

fn headers(fields: &[(&str, &str)]) -> HeaderMap {
    let mut map = HeaderMap::new();
    for (name, value) in fields {
        map.append(
            HeaderName::from_bytes(name.as_bytes()).unwrap(),
            HeaderValue::from_str(value).unwrap(),
        );
    }
    map
}

fn admitted() -> Admitted {
    let step = receive_as(
        &headers(&[("Authorization", "Bearer sk-test-key")]),
        &create_test_config(),
        "id-1".to_string(),
    );
    assert!(step.metrics.is_empty());
    match step.next {
        Ok(admitted) => admitted,
        Err(reply) => panic!("refused: {:?}", reply),
    }
}

fn queued() -> Queued {
    let step = admitted().enqueued(Ok(1));
    assert_eq!(step.metrics, vec![MetricUpdate::ProjectQueueDepth("test".to_string(), 1)]);
    match step.next {
        Ok(queued) => queued,
        Err(reply) => panic!("refused: {:?}", reply),
    }
}

fn granted() -> Granted<u32> {
    let step = queued().settled(Ok(77));
    assert!(step.metrics.is_empty());
    match step.next {
        Ok(granted) => granted,
        Err(reply) => panic!("refused: {:?}", reply),
    }
}

fn reply_of<A>(next: Result<A, Reply>) -> Reply {
    match next {
        Ok(_) => panic!("a reply was expected"),
        Err(reply) => reply,
    }
}

fn field<'a>(reply: &'a Reply, name: &str) -> Option<&'a str> {
    reply.headers.iter().find(|f| f.0 == name).map(|f| f.1.as_str())
}

fn count(outcome: Outcome) -> Vec<MetricUpdate<String>> {
    vec![MetricUpdate::CountRequest("test".to_string(), outcome)]
}

#[test]
fn test_no_auth_rejected() {
    let step =
        receive(&headers(&[("Content-Type", "application/json")]), &create_test_config());
    let reply = reply_of(step.next);
    assert_eq!(reply.status, 403);
    assert_eq!(
        reply.error,
        Some(ErrorDetail {
            message: "No API key provided".to_string(),
            kind: "no_credentials".to_string(),
        })
    );
    assert_eq!(step.metrics, vec![MetricUpdate::CountCredentialFault(CredentialFault::NoKey)]);
}

#[test]
fn test_unknown_key_rejected() {
    let step = receive(
        &headers(&[
            ("Authorization", "Bearer sk-wrong-key"),
            ("Content-Type", "application/json"),
        ]),
        &create_test_config(),
    );
    let reply = reply_of(step.next);
    assert_eq!(reply.status, 403);
    assert_eq!(
        reply.error,
        Some(ErrorDetail {
            message: "Unknown API key".to_string(),
            kind: "unknown_key".to_string(),
        })
    );
    assert_eq!(step.metrics, vec![MetricUpdate::CountCredentialFault(CredentialFault::UnknownKey)]);
}

#[test]
fn a_known_key_leads_to_its_project() {
    let config = create_test_config();
    let bearer = headers(&[("Authorization", "Bearer sk-test-key")]);
    assert_eq!(resolve_project(&bearer, &config).next, Ok("test"));
    let plain = headers(&[("X-Api-Key", "sk-test-key")]);
    assert_eq!(resolve_project(&plain, &config).next, Ok("test"));
}

#[test]
fn the_bearer_token_comes_before_the_key_field() {
    let both = headers(&[("authorization", "Bearer one"), ("x-api-key", "two")]);
    assert_eq!(client_key(&both).as_deref(), Some("one"));
    let basic = headers(&[("authorization", "Basic one"), ("x-api-key", "two")]);
    assert_eq!(client_key(&basic).as_deref(), Some("two"));
    let small = headers(&[("authorization", "bearer one")]);
    assert_eq!(client_key(&small), None);
    let empty = headers(&[("authorization", "Bearer ")]);
    assert_eq!(client_key(&empty).as_deref(), Some(""));
}

#[test]
fn strangers_may_be_sent_to_a_project() {
    let mut config = create_test_config();
    config.unauthenticated = UnauthenticatedPolicy::Project("test".to_string());
    let none = resolve_project(&headers(&[]), &config);
    assert_eq!(none.next, Ok("test"));
    assert_eq!(none.metrics, vec![MetricUpdate::CountCredentialFault(CredentialFault::NoKey)]);
    let wrong = resolve_project(&headers(&[("x-api-key", "nope")]), &config);
    assert_eq!(wrong.next, Ok("test"));
    assert_eq!(
        wrong.metrics,
        vec![MetricUpdate::CountCredentialFault(CredentialFault::UnknownKey)]
    );
}

#[test]
fn header_values_are_read_as_text_where_they_can_be() {
    let mut map = headers(&[("x-one", "first"), ("x-one", "second"), ("x-tab", "a\tb")]);
    map.insert("x-bytes", HeaderValue::from_bytes(&[0x61, 0xe9]).unwrap());
    assert_eq!(header_text(&map, "x-one").as_deref(), Some("first"));
    assert_eq!(header_text(&map, "x-tab").as_deref(), Some("a\tb"));
    assert_eq!(header_text(&map, "x-bytes"), None);
    assert_eq!(header_text(&map, "x-none"), None);
    map.insert("authorization", HeaderValue::from_bytes(&[0xff]).unwrap());
    map.insert("x-api-key", HeaderValue::from_static("k"));
    assert_eq!(client_key(&map).as_deref(), Some("k"));
}

#[test]
fn request_ids_are_random_and_fit_a_header() {
    let auth = headers(&[("Authorization", "Bearer sk-test-key")]);
    let config = create_test_config();
    let first = receive(&auth, &config).next.ok().unwrap();
    let second = receive(&auth, &config).next.ok().unwrap();
    assert_eq!(first.project_name(), "test");
    assert_ne!(first.request_id(), second.request_id());
    let id = first.request_id();
    assert_eq!(id.len(), 36);
    for (i, c) in id.chars().enumerate() {
        match i {
            8 | 13 | 18 | 23 => assert_eq!(c, '-'),
            14 => assert_eq!(c, '4'),
            19 => assert!("89ab".contains(c)),
            _ => assert!(c.is_ascii_digit() || ('a'..='f').contains(&c)),
        }
    }
    assert!(HeaderValue::from_str(id).is_ok());
}

#[test]
fn a_full_queue_is_answered_with_503() {
    let step = admitted().enqueued(Err(QueueError::QueueFull("test".to_string())));
    assert_eq!(step.metrics, count(Outcome::Rejected));
    let reply = reply_of(step.next);
    assert_eq!(reply.status, 503);
    assert_eq!(
        reply.error,
        Some(ErrorDetail {
            message: "Queue is full for project: test".to_string(),
            kind: "queue_full".to_string(),
        })
    );
    assert_eq!(field(&reply, "retry-after"), Some("5"));
    assert_eq!(field(&reply, "x-request-id"), Some("id-1"));
}

#[test]
fn an_unexpected_queue_error_is_answered_with_500() {
    let step = admitted().enqueued(Err(QueueError::UnknownProject("test".to_string())));
    assert!(step.metrics.is_empty());
    assert_eq!(reply_of(step.next), bare_response(500));
    let step = queued().settled::<u32>(Err(QueueError::QueueFull("test".to_string())));
    assert!(step.metrics.is_empty());
    assert_eq!(reply_of(step.next), bare_response(500));
}

#[test]
fn an_eviction_is_answered_with_429() {
    let step = queued().settled::<u32>(Err(QueueError::Evicted("test".to_string())));
    assert!(step.metrics.is_empty());
    let reply = reply_of(step.next);
    assert_eq!(reply.status, 429);
    assert_eq!(
        reply.error,
        Some(ErrorDetail {
            message: "Request evicted due to higher priority traffic (project: test)".to_string(),
            kind: "evicted".to_string(),
        })
    );
    assert_eq!(field(&reply, "retry-after"), Some("5"));
    assert_eq!(field(&reply, "x-request-id"), Some("id-1"));
}

#[test]
fn a_timeout_is_answered_with_504() {
    let step = queued().settled::<u32>(Err(QueueError::Timeout("test".to_string())));
    assert_eq!(step.metrics, count(Outcome::Timeout));
    let reply = reply_of(step.next);
    assert_eq!(reply.status, 504);
    assert_eq!(
        reply.error,
        Some(ErrorDetail {
            message: "Request timed out waiting for a slot (project: test)".to_string(),
            kind: "timeout".to_string(),
        })
    );
    assert_eq!(field(&reply, "retry-after"), None);
    assert_eq!(field(&reply, "x-request-id"), Some("id-1"));
}

#[test]
fn a_timeout_while_serving_is_answered_with_504() {
    let step = granted().answered(UpstreamAnswer::Elapsed);
    assert_eq!(step.metrics, count(Outcome::Timeout));
    let reply = reply_of(step.next);
    assert_eq!(reply.status, 504);
    assert_eq!(
        reply.error,
        Some(ErrorDetail {
            message: "Request timed out while being served (project: test)".to_string(),
            kind: "timeout".to_string(),
        })
    );
    assert_eq!(field(&reply, "x-request-id"), Some("id-1"));
}

#[test]
fn an_unreachable_upstream_is_answered_with_502() {
    let step = granted().answered(UpstreamAnswer::Failed);
    assert_eq!(step.metrics, count(Outcome::UpstreamError));
    assert_eq!(reply_of(step.next), bare_response(502));
}

fn forwarded(fields: &[(&str, &str)], config: &ProxyConfig) -> Vec<(String, String)> {
    granted()
        .forward(&headers(fields), config)
        .headers
        .into_iter()
        .map(|(n, v)| (n, String::from_utf8(v).unwrap()))
        .collect()
}

fn owned(fields: &[(&str, &str)]) -> Vec<(String, String)> {
    fields.iter().map(|(n, v)| (n.to_string(), v.to_string())).collect()
}

#[test]
fn the_client_key_goes_upstream_where_none_is_configured() {
    let config = create_test_config();
    let got = forwarded(
        &[
            ("Accept", "*/*"),
            ("Authorization", "Bearer sk-test-key"),
            ("Content-Type", "application/json"),
            ("X-Trace", "7"),
            ("Cookie", "c"),
        ],
        &config,
    );
    assert_eq!(
        got,
        owned(&[
            ("authorization", "Bearer sk-test-key"),
            ("content-type", "application/json"),
            ("x-trace", "7"),
        ])
    );
    assert_eq!(forwarded(&[("accept", "*/*")], &config), owned(&[]));
    assert_eq!(
        granted().forward(&headers(&[]), &config).url,
        "http://localhost:8000/v1/chat/completions"
    );
}

#[test]
fn the_configured_key_goes_upstream_where_there_is_one() {
    let mut config = create_test_config();
    config.upstream.api_key = Some("sk-up".to_string());
    let with_client_key = forwarded(&[("Authorization", "Bearer sk-test-key")], &config);
    assert_eq!(with_client_key, owned(&[("authorization", "Bearer sk-up")]));
    let without = forwarded(&[("x-api-key", "sk-test-key")], &config);
    assert_eq!(
        without,
        owned(&[("authorization", "Bearer sk-up"), ("x-api-key", "sk-test-key")])
    );
}

#[test]
fn event_streams_are_told_by_their_content_type() {
    assert!(is_event_stream(&headers(&[("content-type", "text/event-stream")])));
    assert!(is_event_stream(&headers(&[("content-type", "text/event-stream; charset=utf-8")])));
    assert!(!is_event_stream(&headers(&[("content-type", "application/json")])));
    assert!(!is_event_stream(&headers(&[])));
}

#[test]
fn success_lies_between_200_and_299() {
    assert!(!is_success(199));
    assert!(is_success(200));
    assert!(is_success(299));
    assert!(!is_success(300));
}

fn answered(status: u16, fields: &[(&str, &str)]) -> Upstream<u32> {
    let step = granted().answered(UpstreamAnswer::Response(status, &headers(fields)));
    assert!(step.metrics.is_empty());
    match step.next {
        Ok(upstream) => upstream,
        Err(reply) => panic!("refused: {:?}", reply),
    }
}

#[test]
fn a_response_in_one_piece_is_relayed_with_the_request_id() {
    let pending = match answered(
        200,
        &[
            ("Content-Type", "application/json"),
            ("OpenAI-Model", "m"),
            ("X-Other", "o"),
            ("Server", "s"),
        ],
    ) {
        Upstream::Body(pending) => pending,
        Upstream::Stream(_) => panic!("no stream was expected"),
    };
    let step = pending.finished(BodyRead::Complete);
    assert_eq!(
        step.metrics,
        vec![
            MetricUpdate::ObserveUpstreamDuration("test".to_string()),
            MetricUpdate::CountRequest("test".to_string(), Outcome::Success),
        ]
    );
    let relayed = step.next.ok().unwrap();
    assert_eq!(relayed.permit, 77);
    assert_eq!(relayed.status, 200);
    let fields: Vec<(String, String)> = relayed
        .headers
        .into_iter()
        .map(|(n, v)| (n, String::from_utf8(v).unwrap()))
        .collect();
    assert_eq!(
        fields,
        owned(&[
            ("x-request-id", "id-1"),
            ("content-type", "application/json"),
            ("openai-model", "m"),
            ("x-other", "o"),
        ])
    );
}

#[test]
fn an_upstream_error_is_answered_with_502() {
    for content_type in ["application/json", "text/event-stream"] {
        for status in [199, 300, 400, 429, 500, 503] {
            let map = headers(&[("content-type", content_type)]);
            let step = granted().answered(UpstreamAnswer::Response(status, &map));
            assert_eq!(step.metrics, count(Outcome::UpstreamError));
            assert_eq!(reply_of(step.next), bare_response(502));
        }
    }
}

#[test]
fn a_body_that_breaks_off_or_takes_too_long_is_not_relayed() {
    let body = || match answered(200, &[]) {
        Upstream::Body(pending) => pending,
        Upstream::Stream(_) => panic!("no stream was expected"),
    };
    let step = body().finished(BodyRead::Failed);
    assert!(step.metrics.is_empty());
    assert_eq!(reply_of(step.next), bare_response(502));
    let step = body().finished(BodyRead::Elapsed);
    assert_eq!(step.metrics, count(Outcome::Timeout));
    assert_eq!(reply_of(step.next).status, 504);
}

#[test]
fn a_stream_keeps_the_slot_and_names_the_request() {
    let start: StreamStart<u32> = match answered(200, &[("content-type", "text/event-stream")]) {
        Upstream::Stream(start) => start,
        Upstream::Body(_) => panic!("a stream was expected"),
    };
    assert_eq!(start.permit, 77);
    assert_eq!(
        start.headers,
        owned(&[
            ("x-request-id", "id-1"),
            ("cache-control", "no-cache"),
            ("x-accel-buffering", "no"),
        ])
    );
}

#[test]
fn a_stream_that_is_handed_out_brings_every_event() {
    let mut start: StreamStart<u32> =
        match answered(200, &[("content-type", "text/event-stream")]) {
            Upstream::Stream(start) => start,
            Upstream::Body(_) => panic!("a stream was expected"),
        };
    let out = start.progress.on_chunk(&b"data: {\"n\":1}\n\ndata: [DONE]\n\n".to_vec());
    assert_eq!(
        out.events,
        vec![
            SseEvent::Data("{\"n\":1}".to_string()),
            SseEvent::Data("[DONE]".to_string()),
        ]
    );
    assert_eq!(
        out.metrics,
        vec![
            MetricUpdate::ObserveFirstToken("test".to_string()),
            MetricUpdate::ObserveUpstreamDuration("test".to_string()),
            MetricUpdate::ObserveStreamDuration("test".to_string()),
            MetricUpdate::CountRequest("test".to_string(), Outcome::Success),
        ]
    );
    let end = start.progress.on_end();
    assert!(end.events.is_empty());
    assert!(end.metrics.is_empty());
}

#[test]
fn the_waits_of_a_request_share_its_time() {
    assert_eq!(time_left(30, 0), 30);
    assert_eq!(time_left(30, 12), 18);
    assert_eq!(time_left(30, 30), 0);
    assert_eq!(time_left(30, 31), 0);
    let waits = [10u128, time_left(30, 10) / 2, time_left(30, 20)];
    assert_eq!(waits.iter().sum::<u128>(), 30);
}

#[test]
fn replies_are_put_together_piece_by_piece() {
    let reply = error_response(418, "teapot", "short and stout".to_string())
        .with_header("a", "1")
        .with_header("b", "2");
    assert_eq!(reply.status, 418);
    assert_eq!(reply.headers, owned(&[("a", "1"), ("b", "2")]));
    assert_eq!(
        reply.error,
        Some(ErrorDetail { message: "short and stout".to_string(), kind: "teapot".to_string() })
    );
}

#[test]
fn the_gateway_is_up() {
    assert_eq!(health_check(), 200);
}

#[test]
fn the_status_lists_every_project() {
    let mut config = create_test_config();
    config.projects.insert(
        "idle".to_string(),
        ProjectConfig { priority: 2, share: 1, max_slots: None, timeout: None, api_keys: vec![] },
    );
    config.slots = 1;
    let mut scheduler = ClassBasedScheduler::new(Arc::new(config.clone()));
    for i in 0..3u32 {
        assert!(scheduler.enqueue("test", i).is_ok());
    }
    scheduler.drain(|_: Dispatch<u32>| true);
    let report = status(&config, &scheduler);
    assert_eq!(report.status, "ok");
    assert_eq!(report.slots, 1);
    assert_eq!(
        report.projects,
        vec![
            ProjectStatus { name: "test".to_string(), queue_size: 2, in_flight: 1 },
            ProjectStatus { name: "idle".to_string(), queue_size: 0, in_flight: 0 },
        ]
    );
}

#[test]
fn measurements_that_cannot_be_written_are_answered_with_500() {
    let failed: Result<String, u8> = Err(1);
    assert_eq!(metrics_reply(failed), Err(500));
    let written: Result<String, u8> = Ok("m 1".to_string());
    assert_eq!(metrics_reply(written), Ok("m 1".to_string()));
}

#[test]
fn measurements_are_written_as_text() {
    let gauge = prometheus::Gauge::new("request_test_gauge", "A number").unwrap();
    gauge.set(3.0);
    prometheus::register(Box::new(gauge)).unwrap();
    let text = metrics_handler().unwrap();
    assert!(text.contains("# HELP request_test_gauge A number"));
    assert!(text.contains("request_test_gauge 3"));
}
