//! The policy in force.
use custos::bench::packet_of;
use custos::engine::{BlockReason, MatchResult};
use custos::manager::{
    parse_failure, policy_format, Modified, PolicyFormat, PolicyManager, PolicyWatcher,
};
use custos::packet_gen::TrafficProfile;
use custos::policy::{DynamicPolicy, Policy};
use std::collections::HashSet;
use std::sync::Arc;

fn policy(version: &str, ports: Option<Vec<u16>>) -> Policy {
    Policy {
        version: version.to_string(),
        description: None,
        allowed_ports: ports.map(|p| p.into_iter().collect::<HashSet<u16>>()),
        blocked_ips: None,
        protobuf_rules: None,
    }
}

const FIRST: Modified = Modified { secs: 10, nanos: 5 };
const SECOND: Modified = Modified { secs: 10, nanos: 6 };

#[test]
fn a_policy_that_is_not_in_order_is_refused() {
    assert!(PolicyManager::from_policy(policy("1", None)).is_ok());
    match PolicyManager::from_policy(policy("  ", None)) {
        Ok(_) => panic!("accepted"),
        Err(m) => assert_eq!(m, "Policy version cannot be empty"),
    }
}

#[test]
fn clones_share_the_policy_in_force() {
    let manager = PolicyManager::from_policy(policy("1", None)).unwrap();
    let other = manager.clone();
    let packet = packet_of(TrafficProfile::ValidPacked);
    assert_eq!(other.match_current(&packet), MatchResult::Allow);
    let old = other.get_policy();
    manager.reload(DynamicPolicy::try_from(policy("2", Some(vec![1]))).unwrap());
    assert_eq!(other.get_policy().version, "2");
    assert_eq!(
        other.match_current(&packet),
        MatchResult::Block(BlockReason::BlockedPort(50051))
    );
    // Whoever holds the old policy keeps it.
    assert_eq!(old.version, "1");
    assert_eq!(Arc::strong_count(&old), 1);
}

#[test]
fn a_changed_file_is_due_until_it_is_taken_over() {
    let manager = PolicyManager::from_policy(policy("1", None)).unwrap();
    let mut watcher = PolicyWatcher::new(Some(FIRST));
    assert!(!watcher.is_due(Some(FIRST)));
    assert!(!watcher.is_due(None));
    assert!(watcher.is_due(Some(SECOND)));

    let failed = watcher.refresh(&manager, SECOND, Err("Read error: gone".to_string()));
    assert_eq!(failed, Err("Read error: gone".to_string()));
    assert!(watcher.is_due(Some(SECOND)));
    assert_eq!(manager.get_policy().version, "1");

    let refused = watcher.refresh(&manager, SECOND, Ok(policy("", None)));
    assert_eq!(refused, Err("Policy version cannot be empty".to_string()));
    assert!(watcher.is_due(Some(SECOND)));
    assert_eq!(manager.get_policy().version, "1");

    assert_eq!(watcher.refresh(&manager, SECOND, Ok(policy("2", None))), Ok(()));
    assert!(!watcher.is_due(Some(SECOND)));
    assert_eq!(manager.get_policy().version, "2");
    assert!(PolicyWatcher::new(None).is_due(Some(FIRST)));
}

#[test]
fn what_was_loaded_is_prepared() {
    let mut watcher = PolicyWatcher::new(None);
    let prepared = watcher.loaded(FIRST, Ok(policy("3", Some(vec![7])))).unwrap();
    assert_eq!(prepared.version, "3");
    assert_eq!(prepared.max_varint_bytes, 9);
    assert_eq!(prepared.max_recursion_depth, 3);
    assert!(prepared.allowed_ports.unwrap().contains(&7));
    assert_eq!(watcher.last_modified, Some(FIRST));
}

#[test]
fn formats_of_policy_files() {
    assert_eq!(policy_format(Some("json")), PolicyFormat::Json);
    assert_eq!(policy_format(Some("JSON")), PolicyFormat::Toml);
    assert_eq!(policy_format(Some("toml")), PolicyFormat::Toml);
    assert_eq!(policy_format(None), PolicyFormat::Toml);
    assert_eq!(parse_failure(PolicyFormat::Json, "x"), "JSON parse error: x");
    assert_eq!(parse_failure(PolicyFormat::Toml, "y"), "TOML parse error: y");
}
