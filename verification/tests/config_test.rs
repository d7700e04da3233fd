use llm_gateway::config::{
    default_host, default_port, default_share, default_unauthenticated, ConfigError, ProjectConfig,
    ProxyConfig, RejectLiteral, ServerConfig, UnauthenticatedPolicy, UpstreamConfig,
};
use llm_gateway::name_map::NameMap;
use std::time::Duration;

fn project(priority: u32, share: u32, max_slots: Option<usize>, keys: &[&str]) -> ProjectConfig {
    ProjectConfig {
        priority,
        share,
        max_slots,
        timeout: None,
        api_keys: keys.iter().map(|k| k.to_string()).collect(),
    }
}

fn config(slots: usize, projects: Vec<(&str, ProjectConfig)>) -> ProxyConfig {
    let mut map = NameMap::new();
    for (name, project) in projects {
        map.insert(name.to_string(), project);
    }
    ProxyConfig {
        server: ServerConfig { host: default_host(), port: default_port() },
        upstream: UpstreamConfig { url: "http://localhost".to_string(), api_key: None },
        slots,
        default_timeout: Duration::from_secs(300),
        unauthenticated: default_unauthenticated(),
        projects: map,
    }
}

fn message(config: &ProxyConfig) -> String {
    config.validate().unwrap_err().message()
}

#[test]
fn the_documented_configuration_passes() {
    let cfg = config(
        8,
        vec![
            ("production", project(1, 1, Some(8), &["sk-prod-xxx"])),
            ("staging", project(2, 2, Some(4), &["sk-staging-xxx"])),
            ("team-beta", project(2, 1, Some(4), &["sk-beta-xxx"])),
            ("batch", project(3, default_share(), Some(2), &["sk-batch-xxx"])),
        ],
    );
    assert!(cfg.validate().is_ok());
    assert_eq!(cfg.project_for_key("sk-prod-xxx"), Some("production"));
    assert_eq!(cfg.project_for_key("sk-staging-xxx"), Some("staging"));
    assert_eq!(cfg.project_for_key("sk-beta-xxx"), Some("team-beta"));
    assert_eq!(cfg.project_for_key("sk-batch-xxx"), Some("batch"));
    assert_eq!(cfg.project_for_key("sk-other"), None);
    assert_eq!(cfg.project_for_key("sk-prod-xx"), None);
    assert!(cfg.validated().is_ok());
}

#[test]
fn the_defaults() {
    assert_eq!(default_share(), 1);
    assert_eq!(default_host(), "0.0.0.0");
    assert_eq!(default_port(), 8080);
    assert_eq!(default_unauthenticated().project_name(), None);
    assert_eq!(UnauthenticatedPolicy::Project("a".to_string()).project_name(), Some("a"));
    assert_eq!(UnauthenticatedPolicy::Reject(RejectLiteral::Reject).project_name(), None);
}

#[test]
fn slots_are_needed() {
    let cfg = config(0, vec![("a", project(1, 1, None, &[]))]);
    assert!(matches!(cfg.validate(), Err(ConfigError::NoSlots)));
    assert_eq!(message(&cfg), "slots must be > 0");
    assert!(matches!(cfg.validated(), Err(ConfigError::NoSlots)));
}

#[test]
fn projects_are_needed() {
    let cfg = config(1, vec![]);
    assert!(matches!(cfg.validate(), Err(ConfigError::NoProjects)));
    assert_eq!(message(&cfg), "at least one project must be configured");
}

#[test]
fn strangers_go_to_a_project_that_exists() {
    let mut cfg = config(1, vec![("a", project(1, 1, None, &[]))]);
    cfg.unauthenticated = UnauthenticatedPolicy::Project("b".to_string());
    assert!(matches!(&cfg.validate(), Err(ConfigError::UnknownUnauthenticated(n)) if n == "b"));
    assert_eq!(message(&cfg), "unauthenticated project 'b' does not exist");
    cfg.unauthenticated = UnauthenticatedPolicy::Project("a".to_string());
    assert!(cfg.validate().is_ok());
}

#[test]
fn priorities_start_at_one() {
    let cfg = config(1, vec![("a", project(0, 1, None, &[]))]);
    assert!(matches!(&cfg.validate(), Err(ConfigError::PriorityTooLow(n)) if n == "a"));
    assert_eq!(message(&cfg), "project 'a': priority must be >= 1");
}

#[test]
fn shares_start_at_one() {
    let cfg = config(1, vec![("a", project(1, 0, None, &[]))]);
    assert!(matches!(&cfg.validate(), Err(ConfigError::ShareTooLow(n)) if n == "a"));
    assert_eq!(message(&cfg), "project 'a': share must be >= 1");
}

#[test]
fn caps_lie_between_one_and_the_slots() {
    let low = config(4, vec![("a", project(1, 1, Some(0), &[]))]);
    assert!(matches!(&low.validate(), Err(ConfigError::MaxSlotsTooLow(n)) if n == "a"));
    assert_eq!(message(&low), "project 'a': max_slots must be >= 1");
    let high = config(4, vec![("a", project(1, 1, Some(15), &[]))]);
    assert!(matches!(&high.validate(), Err(ConfigError::MaxSlotsTooHigh(n, 15, 4)) if n == "a"));
    assert_eq!(message(&high), "project 'a': max_slots (15) exceeds global slots (4)");
    assert!(config(4, vec![("a", project(1, 1, Some(1), &[]))]).validate().is_ok());
    assert!(config(4, vec![("a", project(1, 1, Some(4), &[]))]).validate().is_ok());
}

#[test]
fn a_key_occurs_once() {
    let two = config(
        4,
        vec![("a", project(1, 1, None, &["k", "l"])), ("b", project(1, 1, None, &["m", "l"]))],
    );
    assert!(matches!(&two.validate(), Err(ConfigError::RepeatedKey(k)) if k == "l"));
    assert_eq!(message(&two), "api key 'l' is assigned to multiple projects");
    let one = config(4, vec![("a", project(1, 1, None, &["k", "k"]))]);
    assert!(matches!(&one.validate(), Err(ConfigError::RepeatedKey(k)) if k == "k"));
}

#[test]
fn the_first_fault_is_reported() {
    let cfg = config(
        4,
        vec![("a", project(1, 1, None, &["k"])), ("b", project(1, 0, Some(0), &["k"]))],
    );
    assert_eq!(message(&cfg), "project 'b': share must be >= 1");
}

#[test]
fn limits_fall_back_to_the_global_ones() {
    let cfg = config(6, vec![]);
    let mut p = project(1, 1, None, &[]);
    assert_eq!(cfg.effective_max_slots(&p), 6);
    assert_eq!(cfg.effective_timeout(&p), Duration::from_secs(300));
    p.max_slots = Some(2);
    p.timeout = Some(Duration::from_secs(30));
    assert_eq!(cfg.effective_max_slots(&p), 2);
    assert_eq!(cfg.effective_timeout(&p), Duration::from_secs(30));
}

#[test]
fn a_name_map_keeps_one_value_per_name() {
    let mut map: NameMap<u32> = NameMap::new();
    assert!(map.is_empty());
    assert_eq!(map.insert("a".to_string(), 1), None);
    assert_eq!(map.insert("b".to_string(), 2), None);
    assert_eq!(map.insert("a".to_string(), 3), Some(1));
    assert_eq!(map.len(), 2);
    assert_eq!(map.name_at(0), "a");
    assert_eq!(*map.value_at(0), 3);
    assert_eq!(map.position("b"), Some(1));
    assert_eq!(map.position("c"), None);
    assert!(map.contains_key("b"));
    assert_eq!(map.get("a"), Some(&3));
    assert_eq!(map.get("c"), None);
    let copy = map.clone();
    assert_eq!(copy.get("b"), Some(&2));
    assert_eq!(copy.len(), 2);
}

#[test]
fn a_copy_of_a_configuration_is_the_same() {
    let mut cfg = config(6, vec![("a", project(1, 2, Some(3), &["k"]))]);
    cfg.upstream.api_key = Some("up".to_string());
    cfg.unauthenticated = UnauthenticatedPolicy::Project("a".to_string());
    let copy = cfg.clone();
    assert_eq!(copy.slots, 6);
    assert_eq!(copy.server.host, "0.0.0.0");
    assert_eq!(copy.upstream.api_key.as_deref(), Some("up"));
    assert_eq!(copy.unauthenticated.project_name(), Some("a"));
    assert_eq!(copy.project_for_key("k"), Some("a"));
    assert_eq!(copy.projects.value_at(0).share, 2);
    assert_eq!(copy.projects.value_at(0).max_slots, Some(3));
}
