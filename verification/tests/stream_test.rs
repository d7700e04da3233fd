use llm_gateway::config::{
    default_unauthenticated, ProjectConfig, ProxyConfig, ServerConfig, UpstreamConfig,
};
use llm_gateway::metrics::{
    init_project_metrics, on_dispatched, on_enqueued, on_evicted, on_released, on_start,
    on_undelivered, CredentialFault, MetricUpdate, Outcome,
};
use llm_gateway::name_map::NameMap;
use llm_gateway::queue::{ClassBasedScheduler, Dispatch, Eviction, Release};
use llm_gateway::sse::{ChunkOutput, SseEvent, StreamProgress};
use llm_gateway::text::{
    chars_of, contains, decimal, same, starts_with, strip_prefix,
};
use std::cell::RefCell;
use std::sync::Arc;
use std::time::Duration;

fn data(text: &str) -> SseEvent<String> {
    SseEvent::Data(text.to_string())
}

fn feed(progress: &mut StreamProgress, text: &str) -> ChunkOutput {
    progress.on_chunk(&text.as_bytes().to_vec())
}

fn p() -> String {
    "p".to_string()
}

fn done() -> Vec<MetricUpdate<String>> {
    vec![
        MetricUpdate::ObserveUpstreamDuration(p()),
        MetricUpdate::ObserveStreamDuration(p()),
        MetricUpdate::CountRequest(p(), Outcome::Success),
    ]
}

#[test]
fn every_data_line_becomes_an_event() {
    let mut progress = StreamProgress::new("p");
    let out = feed(&mut progress, "data: {\"a\":1}\n\nevent: x\ndata:no\ndata: two\r\n: c\n");
    assert_eq!(out.events, vec![data("{\"a\":1}"), data("two")]);
    assert_eq!(out.metrics, vec![MetricUpdate::ObserveFirstToken(p())]);
}

#[test]
fn a_piece_without_data_becomes_an_empty_comment() {
    let mut progress = StreamProgress::new("p");
    for text in ["", "\n\n", "event: ping\n", ": hello\n", "data: un"] {
        let out = feed(&mut progress, text);
        assert_eq!(out.events, vec![SseEvent::Comment(String::new())]);
        assert!(out.metrics.is_empty());
    }
}

#[test]
fn the_first_token_is_measured_once() {
    let mut progress = StreamProgress::new("p");
    assert!(feed(&mut progress, ": wait\n").metrics.is_empty());
    assert_eq!(
        feed(&mut progress, "data: a\ndata: b\n").metrics,
        vec![MetricUpdate::ObserveFirstToken(p())]
    );
    assert!(feed(&mut progress, "data: c\n").metrics.is_empty());
}

#[test]
fn the_end_mark_completes_the_request() {
    let mut progress = StreamProgress::new("p");
    feed(&mut progress, "data: a\n\n");
    let out = feed(&mut progress, "data: [DONE]\n\n");
    assert_eq!(out.events, vec![data("[DONE]")]);
    assert_eq!(out.metrics, done());
    assert!(progress.on_elapsed().metrics.is_empty());
}

#[test]
fn an_end_mark_alone_is_the_first_token_too() {
    let mut progress = StreamProgress::new("p");
    let mut expected = vec![MetricUpdate::ObserveFirstToken(p())];
    expected.extend(done());
    assert!(feed(&mut progress, "data: [DONE]").metrics.is_empty());
    let out = progress.on_end();
    assert_eq!(out.events, vec![data("[DONE]")]);
    assert_eq!(out.metrics, expected);
    assert!(progress.on_elapsed().metrics.is_empty());
    assert!(progress.on_end().events.is_empty());
}

/// The data and the measurements of a stream that comes in these pieces.
fn whole(pieces: &[&[u8]]) -> (Vec<String>, Vec<MetricUpdate<String>>) {
    let mut progress = StreamProgress::new("p");
    let mut texts = vec![];
    let mut metrics = vec![];
    let mut take = |out: ChunkOutput| {
        for event in out.events {
            if let SseEvent::Data(text) = event {
                texts.push(text);
            }
        }
        metrics.extend(out.metrics);
    };
    for piece in pieces {
        take(progress.on_chunk(&piece.to_vec()));
    }
    take(progress.on_end());
    (texts, metrics)
}

#[test]
fn a_stream_brings_the_same_wherever_it_is_cut() {
    let bytes = "data: a\u{e9}b\r\n\ndata: two\n: c\ndata: [DONE]\n\ndata: tail".as_bytes();
    let all = whole(&[bytes]);
    assert_eq!(all.0, vec!["a\u{e9}b", "two", "[DONE]", "tail"]);
    for i in 0..=bytes.len() {
        assert_eq!(whole(&[&bytes[..i], &bytes[i..]]), all);
        for j in i..=bytes.len() {
            assert_eq!(whole(&[&bytes[..i], &bytes[i..j], &bytes[j..]]), all);
        }
    }
    let single: Vec<&[u8]> = bytes.chunks(1).collect();
    assert_eq!(whole(&single), all);
    assert_eq!(whole(&[b"data: a", b"b\n\n"]).0, vec!["ab"]);
}

#[test]
fn lines_end_in_line_feeds() {
    let (texts, _) = whole(&[b"data: a\rb\r\r\ndata: \ndata: c\r"]);
    assert_eq!(texts, vec!["a\rb\r", "", "c\r"]);
    assert!(whole(&[]).0.is_empty());
    assert!(whole(&[b"\n"]).0.is_empty());
}

#[test]
fn lines_are_taken_as_they_are() {
    let mut progress = StreamProgress::new("p");
    let lines = vec!["data: x".to_string(), "id: 1".to_string(), "data: [DONE]".to_string()];
    let out = progress.on_lines(&lines);
    assert_eq!(out.events, vec![data("x"), data("[DONE]")]);
    let mut expected = vec![MetricUpdate::ObserveFirstToken(p())];
    expected.extend(done());
    assert_eq!(out.metrics, expected);
    assert!(progress.on_lines(&vec![]).events.is_empty());
}

#[test]
fn bytes_are_read_as_text_with_replacements() {
    let mut progress = StreamProgress::new("p");
    let valid = progress.on_chunk(&"data: h\u{e9}\n".as_bytes().to_vec());
    assert_eq!(valid.events, vec![data("h\u{e9}")]);
    let broken = progress.on_chunk(&b"data: h\xff!\n".to_vec());
    assert_eq!(broken.events, vec![data("h\u{fffd}!")]);
}

#[test]
fn a_broken_stream_is_counted_and_sends_nothing() {
    let progress = StreamProgress::new("p");
    let out = progress.on_error();
    assert!(out.events.is_empty());
    assert_eq!(
        out.metrics,
        vec![
            MetricUpdate::CountStreamError(p()),
            MetricUpdate::CountRequest(p(), Outcome::UpstreamError),
        ]
    );
}

#[test]
fn a_stream_that_takes_too_long_is_a_timeout() {
    let mut progress = StreamProgress::new("p");
    feed(&mut progress, "data: a\n");
    let out = progress.on_elapsed();
    assert!(out.events.is_empty());
    assert_eq!(out.metrics, vec![MetricUpdate::CountRequest(p(), Outcome::Timeout)]);
}

fn zeros(name: &str) -> Vec<MetricUpdate<String>> {
    let n = || name.to_string();
    vec![
        MetricUpdate::ProjectInFlight(n(), 0),
        MetricUpdate::ProjectQueueDepth(n(), 0),
        MetricUpdate::ResetRequests(n(), Outcome::Success),
        MetricUpdate::ResetRequests(n(), Outcome::Rejected),
        MetricUpdate::ResetRequests(n(), Outcome::Evicted),
        MetricUpdate::ResetRequests(n(), Outcome::Timeout),
        MetricUpdate::ResetRequests(n(), Outcome::UpstreamError),
        MetricUpdate::ResetStreamErrors(n()),
        MetricUpdate::ShowQueueWait(n()),
        MetricUpdate::ShowUpstreamDuration(n()),
        MetricUpdate::ShowFirstToken(n()),
        MetricUpdate::ShowStreamDuration(n()),
    ]
}

fn config() -> ProxyConfig {
    let mut projects = NameMap::new();
    for (name, priority) in [("a", 1), ("b", 2)] {
        projects.insert(
            name.to_string(),
            ProjectConfig { priority, share: 1, max_slots: None, timeout: None, api_keys: vec![] },
        );
    }
    ProxyConfig {
        server: ServerConfig { host: "h".to_string(), port: 1 },
        upstream: UpstreamConfig { url: "u".to_string(), api_key: None },
        slots: 1,
        default_timeout: Duration::from_secs(1),
        unauthenticated: default_unauthenticated(),
        projects,
    }
}

#[test]
fn measurements_start_at_zero() {
    let names = vec!["a".to_string(), "b".to_string()];
    let mut expected = zeros("a");
    expected.extend(zeros("b"));
    assert_eq!(init_project_metrics(&names), expected);
    assert!(init_project_metrics(&vec![]).is_empty());
    let mut start = vec![MetricUpdate::SlotsTotal(1), MetricUpdate::SlotsInUse(0)];
    start.extend(expected);
    assert_eq!(on_start(&config()), start);
}

#[test]
fn labels_of_outcomes_and_faults() {
    assert_eq!(Outcome::Success.label(), "success");
    assert_eq!(Outcome::Rejected.label(), "rejected");
    assert_eq!(Outcome::Evicted.label(), "evicted");
    assert_eq!(Outcome::Timeout.label(), "timeout");
    assert_eq!(Outcome::UpstreamError.label(), "upstream_error");
    assert_eq!(CredentialFault::NoKey.label(), "no_key");
    assert_eq!(CredentialFault::UnknownKey.label(), "unknown_key");
}

#[test]
fn measurements_follow_a_request() {
    let a = || "a".to_string();
    assert_eq!(on_enqueued("a", 3), vec![MetricUpdate::ProjectQueueDepth(a(), 3)]);
    let mut scheduler = ClassBasedScheduler::new(Arc::new(config()));
    assert!(scheduler.enqueue("a", 1u32).is_ok());
    assert!(scheduler.enqueue("a", 2).is_ok());
    let seen = RefCell::new(vec![]);
    scheduler.drain(|d: Dispatch<u32>| {
        seen.borrow_mut().push((on_dispatched(&d), on_undelivered(&d)));
        true
    });
    let seen = seen.into_inner();
    assert_eq!(seen.len(), 1);
    assert_eq!(
        seen[0].0,
        vec![
            MetricUpdate::ProjectQueueDepth(a(), 1),
            MetricUpdate::ProjectInFlight(a(), 1),
            MetricUpdate::SlotsInUse(1),
            MetricUpdate::ObserveQueueWait(a()),
        ]
    );
    assert_eq!(
        seen[0].1,
        vec![MetricUpdate::ProjectInFlight(a(), 0), MetricUpdate::SlotsInUse(0)]
    );
    let eviction = Eviction { project_name: a(), item: 0u32, queue_size: 4 };
    assert_eq!(
        on_evicted(&eviction),
        vec![
            MetricUpdate::CountRequest(a(), Outcome::Evicted),
            MetricUpdate::ObserveQueueWait(a()),
            MetricUpdate::ProjectQueueDepth(a(), 4),
        ]
    );
    let release = Release { project_name: a(), in_flight: 2, slots_in_use: 5 };
    assert_eq!(
        on_released(&release),
        vec![MetricUpdate::ProjectInFlight(a(), 2), MetricUpdate::SlotsInUse(5)]
    );
}

#[test]
fn prefixes_and_parts_of_texts() {
    assert!(starts_with("x-trace", "x-"));
    assert!(!starts_with("x", "x-"));
    assert!(starts_with("x", ""));
    assert_eq!(strip_prefix("data: h\u{e9}", "data: "), Some("h\u{e9}"));
    assert_eq!(strip_prefix("data:", "data: "), None);
    assert!(contains("abcab", "cab"));
    assert!(!contains("abc", "ca"));
    assert!(contains("", ""));
    assert!(same("a", "a"));
    assert!(!same("a", "b"));
    assert_eq!(chars_of("a\u{e9}"), vec!['a', '\u{e9}']);
}

#[test]
fn numbers_in_decimal() {
    assert_eq!(decimal(0), "0");
    assert_eq!(decimal(4070), "4070");
    assert_eq!(decimal(usize::MAX), usize::MAX.to_string());
}
