use llm_gateway::config::{
    ProjectConfig, ProxyConfig, RejectLiteral, ServerConfig, UnauthenticatedPolicy, UpstreamConfig,
};
use llm_gateway::name_map::NameMap;
use llm_gateway::queue::{
    ClassBasedScheduler, Dispatch, Drained, QueueError, SlotPermit, WaitOutcome,
};
use std::cell::RefCell;
use std::sync::Arc;
use std::time::Duration;

fn make_config(
    slots: usize,
    projects: Vec<(&str, u32, u32, Option<usize>)>,
) -> Arc<ProxyConfig> {
    let mut project_map = NameMap::new();
    for (name, priority, share, max_slots) in projects {
        project_map.insert(
            name.to_string(),
            ProjectConfig { priority, share, max_slots, timeout: None, api_keys: vec![] },
        );
    }
    Arc::new(ProxyConfig {
        server: ServerConfig { host: "127.0.0.1".into(), port: 8080 },
        upstream: UpstreamConfig { url: "http://localhost".into(), api_key: None },
        slots,
        default_timeout: Duration::from_secs(5),
        unauthenticated: UnauthenticatedPolicy::Reject(RejectLiteral::Reject),
        projects: project_map,
    })
}

/// A request that got its slot: its item, its permit, and the numbers that came
/// with it.
struct Served {
    item: u32,
    permit: SlotPermit,
    queue_size: usize,
    in_flight: usize,
    slots_in_use: usize,
}

fn serve(scheduler: &mut ClassBasedScheduler<u32>) -> (Vec<Served>, Drained<u32>) {
    let served: RefCell<Vec<Served>> = RefCell::new(vec![]);
    let drained = scheduler.drain(|d: Dispatch<u32>| {
        served.borrow_mut().push(Served {
            item: d.item,
            permit: d.permit,
            queue_size: d.queue_size,
            in_flight: d.in_flight,
            slots_in_use: d.slots_in_use,
        });
        true
    });
    (served.into_inner(), drained)
}

fn items(served: &[Served]) -> Vec<u32> {
    served.iter().map(|s| s.item).collect()
}

#[test]
fn test_basic_dispatch() {
    let config = make_config(4, vec![("prod", 1, 1, None)]);
    let mut scheduler = ClassBasedScheduler::new(config);

    let queued = scheduler.enqueue("prod", 1);
    assert!(queued.is_ok());
    let (served, _) = serve(&mut scheduler);
    assert_eq!(items(&served), vec![1]);
    assert_eq!(served[0].permit.project_name(), "prod");
    assert_eq!(served[0].queue_size, 0);
    assert_eq!(served[0].in_flight, 1);
    assert_eq!(served[0].slots_in_use, 1);
}

#[test]
fn test_queue_full_rejection() {
    let config = make_config(1, vec![("prod", 1, 1, None)]);
    let mut scheduler = ClassBasedScheduler::new(config);

    let mut accepted = 0;
    for i in 0..500 {
        if scheduler.enqueue("prod", i).is_ok() {
            accepted += 1;
        }
    }
    assert_eq!(accepted, 500);
    // 501st should fail
    let result = scheduler.enqueue("prod", 500);
    assert!(matches!(result, Err(QueueError::QueueFull(_))));
    assert_eq!(scheduler.queue_size("prod"), 500);
}

#[test]
fn test_unknown_project() {
    let config = make_config(4, vec![("prod", 1, 1, None)]);
    let mut scheduler = ClassBasedScheduler::new(config);
    let result = scheduler.enqueue("nonexistent", 1);
    assert!(matches!(result, Err(QueueError::UnknownProject(_))));
    assert_eq!(scheduler.queue_size("nonexistent"), 0);
    assert_eq!(scheduler.in_flight_count("nonexistent"), 0);
}

#[test]
fn test_max_slots_respected() {
    let config = make_config(8, vec![("prod", 1, 1, Some(2))]);
    let mut scheduler = ClassBasedScheduler::new(config);

    assert!(scheduler.enqueue("prod", 1).is_ok());
    assert!(scheduler.enqueue("prod", 2).is_ok());
    assert!(scheduler.enqueue("prod", 3).is_ok());

    // Hold permits so slots aren't freed
    let (mut served, _) = serve(&mut scheduler);
    assert_eq!(items(&served), vec![1, 2]);

    // Third should remain queued (max_slots=2)
    let (more, _) = serve(&mut scheduler);
    assert!(more.is_empty(), "third request should be queued due to max_slots");
    assert_eq!(scheduler.queue_size("prod"), 1);

    let release = scheduler.release(served.remove(0).permit);
    assert_eq!(release.project_name, "prod");
    assert_eq!(release.in_flight, 1);
    assert_eq!(release.slots_in_use, 1);
    let (more, _) = serve(&mut scheduler);
    assert_eq!(items(&more), vec![3]);
}

#[test]
fn test_timeout() {
    let config = make_config(1, vec![("prod", 1, 1, None)]);
    // Override timeout to be very short
    let mut cfg = (*config).clone();
    cfg.default_timeout = Duration::from_millis(50);
    let mut scheduler: ClassBasedScheduler<u32> = ClassBasedScheduler::new(Arc::new(cfg));
    assert_eq!(scheduler.request_timeout("prod"), Duration::from_millis(50));

    // Nothing is handed out: the request stays queued and times out
    assert!(scheduler.enqueue("prod", 1).is_ok());
    let result: Result<SlotPermit, QueueError> =
        scheduler.wait_for_slot("prod", WaitOutcome::Elapsed);
    assert!(matches!(result, Err(QueueError::Timeout(_))));
}

#[test]
fn test_priority_tier_ordering() {
    let config = make_config(2, vec![("high", 1, 1, None), ("low", 2, 1, None)]);
    let mut scheduler = ClassBasedScheduler::new(config);

    // Enqueue to both
    assert!(scheduler.enqueue("low", 1).is_ok());
    assert!(scheduler.enqueue("high", 2).is_ok());

    // High priority should dispatch, and low after it
    let (served, _) = serve(&mut scheduler);
    assert_eq!(items(&served), vec![2, 1]);
}

#[test]
fn a_closed_wait_is_a_timeout_and_an_answer_is_kept() {
    let scheduler: ClassBasedScheduler<u32> =
        ClassBasedScheduler::new(make_config(1, vec![("prod", 1, 1, None)]));
    let closed: Result<u32, QueueError> = scheduler.wait_for_slot("prod", WaitOutcome::Closed);
    assert!(matches!(closed, Err(QueueError::Timeout(name)) if name == "prod"));
    let answered = scheduler.wait_for_slot("prod", WaitOutcome::Answered(Ok(9)));
    assert!(matches!(answered, Ok(9)));
    let evicted: Result<u32, QueueError> = scheduler
        .wait_for_slot("prod", WaitOutcome::Answered(Err(QueueError::Evicted("prod".to_string()))));
    assert!(matches!(evicted, Err(QueueError::Evicted(_))));
}

#[test]
fn a_project_has_its_own_timeout() {
    let mut cfg = (*make_config(1, vec![])).clone();
    cfg.projects.insert(
        "fast".to_string(),
        ProjectConfig {
            priority: 1,
            share: 1,
            max_slots: None,
            timeout: Some(Duration::from_secs(30)),
            api_keys: vec![],
        },
    );
    let scheduler: ClassBasedScheduler<u32> = ClassBasedScheduler::new(Arc::new(cfg));
    assert_eq!(scheduler.request_timeout("fast"), Duration::from_secs(30));
    assert_eq!(scheduler.request_timeout("other"), Duration::from_secs(5));
}

#[test]
fn each_queue_is_first_in_first_out() {
    let mut scheduler = ClassBasedScheduler::new(make_config(3, vec![("prod", 1, 1, None)]));
    for i in 1..=5 {
        assert_eq!(scheduler.enqueue("prod", i).ok(), Some(i as usize));
    }
    let (mut served, _) = serve(&mut scheduler);
    assert_eq!(items(&served), vec![1, 2, 3]);
    assert_eq!(served[2].queue_size, 2);
    scheduler.release(served.remove(0).permit);
    let (next, _) = serve(&mut scheduler);
    assert_eq!(items(&next), vec![4]);
}

#[test]
fn a_tier_is_fully_served_before_the_next_one_runs() {
    let mut scheduler =
        ClassBasedScheduler::new(make_config(2, vec![("a", 1, 1, Some(1)), ("b", 2, 1, None)]));
    assert!(scheduler.enqueue("a", 1).is_ok());
    assert!(scheduler.enqueue("a", 2).is_ok());
    let (mut held, _) = serve(&mut scheduler);
    assert_eq!(items(&held), vec![1]);
    assert!(scheduler.enqueue("b", 3).is_ok());
    // The first tier waits at its cap, so the second gets nothing.
    assert_eq!(scheduler.state().total_weight(), 0);
    assert_eq!(scheduler.state().pick_next(), None);
    let (served, drained) = serve(&mut scheduler);
    assert!(served.is_empty());
    assert!(drained.evicted.is_none());
    scheduler.release(held.remove(0).permit);
    let (served, _) = serve(&mut scheduler);
    assert_eq!(items(&served), vec![2, 3]);
}

#[test]
fn a_saturated_project_evicts_the_less_important_one() {
    let mut scheduler =
        ClassBasedScheduler::new(make_config(1, vec![("high", 1, 1, None), ("low", 2, 1, None)]));
    assert!(scheduler.enqueue("high", 1).is_ok());
    let (held, _) = serve(&mut scheduler);
    assert_eq!(items(&held), vec![1]);
    assert!(scheduler.enqueue("low", 2).is_ok());
    assert!(scheduler.enqueue("high", 3).is_ok());
    let (served, drained) = serve(&mut scheduler);
    assert!(served.is_empty());
    let evicted = drained.evicted.unwrap();
    assert_eq!(evicted.project_name, "low");
    assert_eq!(evicted.item, 2);
    assert_eq!(scheduler.queue_size("low"), 0);
    assert_eq!(scheduler.queue_size("high"), 1);
    assert_eq!(scheduler.in_flight_count("high"), 1);
}

#[test]
fn the_newest_of_the_least_important_is_evicted() {
    let mut scheduler = ClassBasedScheduler::new(
        make_config(1, vec![("high", 1, 1, None), ("mid", 2, 1, None), ("low", 3, 1, None)]),
    );
    assert!(scheduler.enqueue("low", 10).is_ok());
    let (running, _) = serve(&mut scheduler);
    assert_eq!(items(&running), vec![10]);
    for (name, item) in [("low", 11), ("low", 12), ("mid", 20), ("high", 30)] {
        assert!(scheduler.enqueue(name, item).is_ok());
    }
    let (served, drained) = serve(&mut scheduler);
    assert!(served.is_empty());
    let evicted = drained.evicted.unwrap();
    assert_eq!(evicted.project_name, "low");
    assert_eq!(evicted.item, 12);
    assert_eq!(evicted.queue_size, 1);
    // What runs is not touched.
    assert_eq!(scheduler.in_flight_count("low"), 1);
    let (_, drained) = serve(&mut scheduler);
    assert_eq!(drained.evicted.unwrap().item, 11);
    let (_, drained) = serve(&mut scheduler);
    assert_eq!(drained.evicted.unwrap().item, 20);
    // Only the most important project waits now.
    let (_, drained) = serve(&mut scheduler);
    assert!(drained.evicted.is_none());
    assert_eq!(scheduler.queue_size("high"), 1);
}

#[test]
fn within_a_tier_the_lowest_share_is_evicted_from() {
    let mut scheduler = ClassBasedScheduler::new(
        make_config(1, vec![("a", 2, 3, None), ("b", 2, 1, None), ("c", 2, 1, None), ("top", 1, 1, None)]),
    );
    assert!(scheduler.enqueue("a", 1).is_ok());
    let (_running, _) = serve(&mut scheduler);
    for (name, item) in [("a", 2), ("b", 3), ("c", 4)] {
        assert!(scheduler.enqueue(name, item).is_ok());
    }
    // One tier alone does not evict.
    let (_, drained) = serve(&mut scheduler);
    assert!(drained.evicted.is_none());
    assert_eq!(scheduler.state().pick_eviction_target(), Some(1));
    assert!(scheduler.enqueue("top", 5).is_ok());
    let (_, drained) = serve(&mut scheduler);
    assert_eq!(drained.evicted.unwrap().item, 3);
    let (_, drained) = serve(&mut scheduler);
    assert_eq!(drained.evicted.unwrap().item, 4);
    let (_, drained) = serve(&mut scheduler);
    assert_eq!(drained.evicted.unwrap().item, 2);
}

#[test]
fn a_slot_that_nobody_takes_goes_back_at_once() {
    let mut scheduler = ClassBasedScheduler::new(make_config(1, vec![("prod", 1, 1, None)]));
    for i in 1..=3 {
        assert!(scheduler.enqueue("prod", i).is_ok());
    }
    let offered: RefCell<Vec<u32>> = RefCell::new(vec![]);
    let drained = scheduler.drain(|d: Dispatch<u32>| {
        offered.borrow_mut().push(d.item);
        d.item == 2
    });
    assert_eq!(offered.into_inner(), vec![1, 2]);
    assert_eq!(drained.steps.len(), 2);
    assert!(!drained.steps[0].delivered);
    assert!(drained.steps[1].delivered);
    assert_eq!(scheduler.in_flight_count("prod"), 1);
    assert_eq!(scheduler.queue_size("prod"), 1);
}

#[test]
fn the_hard_cap_holds_after_undelivered_slots() {
    let mut scheduler = ClassBasedScheduler::new(make_config(2, vec![("prod", 1, 1, None)]));
    for i in 1..=6 {
        assert!(scheduler.enqueue("prod", i).is_ok());
    }
    let kept: RefCell<Vec<SlotPermit>> = RefCell::new(vec![]);
    scheduler.drain(|d: Dispatch<u32>| {
        if d.item > 2 {
            kept.borrow_mut().push(d.permit);
            true
        } else {
            false
        }
    });
    assert_eq!(kept.borrow().len(), 2);
    assert_eq!(scheduler.in_flight_count("prod"), 2);
    let (more, _) = serve(&mut scheduler);
    assert!(more.is_empty());
}

#[test]
fn numbers_fall_to_projects_by_their_shares() {
    let mut scheduler = ClassBasedScheduler::new(
        make_config(1, vec![("two", 2, 2, None), ("late", 3, 7, None), ("one", 2, 1, None)]),
    );
    assert_eq!(scheduler.state().total_weight(), 0);
    assert_eq!(scheduler.state().pick_with(0), None);
    assert_eq!(scheduler.state().pick_next(), None);
    for (name, item) in [("two", 1), ("late", 2), ("one", 3)] {
        assert!(scheduler.enqueue(name, item).is_ok());
    }
    assert_eq!(scheduler.state().total_weight(), 3);
    assert_eq!(scheduler.state().pick_with(0), Some(0));
    assert_eq!(scheduler.state().pick_with(1), Some(0));
    assert_eq!(scheduler.state().pick_with(2), Some(2));
    assert_eq!(scheduler.state().pick_with(3), None);
}

#[test]
fn shares_add_up_beyond_thirty_two_bits() {
    let mut scheduler = ClassBasedScheduler::new(
        make_config(1, vec![("a", 1, u32::MAX, None), ("b", 1, u32::MAX, None)]),
    );
    assert!(scheduler.enqueue("a", 1).is_ok());
    assert!(scheduler.enqueue("b", 2).is_ok());
    assert_eq!(scheduler.state().total_weight(), 8_589_934_590);
    assert_eq!(scheduler.state().pick_with(4_294_967_294), Some(0));
    assert_eq!(scheduler.state().pick_with(4_294_967_295), Some(1));
    assert!(scheduler.state().pick_next().is_some());
}

#[test]
fn a_random_pick_serves_both_peers_and_favours_the_larger_share() {
    let mut scheduler =
        ClassBasedScheduler::new(make_config(1, vec![("big", 1, 9, None), ("small", 1, 1, None)]));
    assert!(scheduler.enqueue("big", 1).is_ok());
    assert!(scheduler.enqueue("small", 2).is_ok());
    let mut counts = [0usize; 2];
    for _ in 0..2000 {
        counts[scheduler.state().pick_next().unwrap()] += 1;
    }
    assert!(counts[1] > 0);
    assert!(counts[0] > counts[1]);
}

#[test]
fn a_project_without_a_share_is_never_chosen() {
    let mut scheduler = ClassBasedScheduler::new(make_config(1, vec![("none", 1, 0, None)]));
    assert!(scheduler.enqueue("none", 1).is_ok());
    assert_eq!(scheduler.state().pick_next(), None);
    let (served, drained) = serve(&mut scheduler);
    assert!(served.is_empty());
    assert!(drained.evicted.is_none());
}

#[test]
fn releasing_undoes_a_dispatch() {
    let mut scheduler = ClassBasedScheduler::new(make_config(2, vec![("prod", 1, 1, None)]));
    assert!(scheduler.enqueue("prod", 1).is_ok());
    let (mut served, _) = serve(&mut scheduler);
    assert_eq!(scheduler.in_flight_count("prod"), 1);
    let release = scheduler.release(served.remove(0).permit);
    assert_eq!(release.in_flight, 0);
    assert_eq!(release.slots_in_use, 0);
    assert_eq!(scheduler.in_flight_count("prod"), 0);
}

#[test]
fn a_permit_of_another_scheduler_does_not_count_below_zero() {
    let mut one = ClassBasedScheduler::new(make_config(1, vec![("prod", 1, 1, None)]));
    assert!(one.enqueue("prod", 1).is_ok());
    let (mut served, _) = serve(&mut one);
    let mut other: ClassBasedScheduler<u32> =
        ClassBasedScheduler::new(make_config(1, vec![("else", 1, 1, None)]));
    let release = other.release(served.remove(0).permit);
    assert_eq!(release.project_name, "prod");
    assert_eq!(release.in_flight, 0);
    assert_eq!(release.slots_in_use, 0);
}

#[test]
fn requests_of_one_project_leave_the_others_alone() {
    let mut scheduler =
        ClassBasedScheduler::new(make_config(2, vec![("a", 1, 1, Some(1)), ("b", 1, 1, Some(1))]));
    for item in 1..=3 {
        assert!(scheduler.enqueue("a", item).is_ok());
    }
    assert_eq!(scheduler.queue_size("a"), 3);
    assert_eq!(scheduler.queue_size("b"), 0);
    let (_held, _) = serve(&mut scheduler);
    assert_eq!(scheduler.in_flight_count("a"), 1);
    assert_eq!(scheduler.in_flight_count("b"), 0);
    assert!(scheduler.enqueue("b", 4).is_ok());
    let (served, _) = serve(&mut scheduler);
    assert_eq!(items(&served), vec![4]);
    assert_eq!(served[0].slots_in_use, 2);
    assert_eq!(scheduler.queue_size("a"), 2);
}

#[test]
fn the_counts_are_those_of_the_slots_held() {
    let mut scheduler =
        ClassBasedScheduler::new(make_config(3, vec![("a", 1, 1, Some(2)), ("b", 2, 1, None)]));
    let mut held: Vec<Served> = vec![];
    for round in 0..30u32 {
        let name = if round % 3 == 0 { "b" } else { "a" };
        assert!(scheduler.enqueue(name, round).is_ok());
        let (served, _) = serve(&mut scheduler);
        held.extend(served);
        let of = |n: &str| held.iter().filter(|s| s.permit.project_name() == n).count();
        assert_eq!(scheduler.in_flight_count("a"), of("a"));
        assert_eq!(scheduler.in_flight_count("b"), of("b"));
        assert!(of("a") <= 2);
        assert!(held.len() <= 3);
        if round % 4 == 3 {
            scheduler.release(held.remove(0).permit);
        }
    }
}

#[test]
fn queue_errors_describe_themselves() {
    let name = "prod".to_string();
    assert_eq!(QueueError::QueueFull(name.clone()).message(), "Queue is full for project: prod");
    assert_eq!(
        QueueError::Evicted(name.clone()).message(),
        "Request evicted due to higher priority traffic (project: prod)"
    );
    assert_eq!(QueueError::Timeout(name.clone()).message(), "Request timeout for project: prod");
    assert_eq!(QueueError::UnknownProject(name).message(), "Unknown project: prod");
}
