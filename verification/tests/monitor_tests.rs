use dns_monitor::model::{DnsTask, NetworkInterface};
use dns_monitor::monitor::{
    complete_apply, complete_observation, plan_cycle, ApplyOutcome, PlannedAction,
};
use dns_monitor::registry::TaskRegistry;
use dns_monitor::throttle::ThrottleMap;

fn task(id: &str, pattern: &str, target: &[&str], interval: u64, enabled: bool) -> DnsTask {
    DnsTask {
        id: id.to_string(),
        name: format!("task {}", id),
        interface_pattern: pattern.to_string(),
        target_dns: target.iter().map(|s| s.to_string()).collect(),
        enabled,
        created_at: 0,
        interval,
    }
}

fn iface(name: &str, enabled: bool, dns: &[&str]) -> NetworkInterface {
    NetworkInterface {
        name: name.to_string(),
        description: None,
        mac_address: None,
        ipv4: Vec::new(),
        ipv6: Vec::new(),
        dns_servers: dns.iter().map(|s| s.to_string()).collect(),
        enabled,
        if_type: None,
        gateways: Vec::new(),
        guid: None,
        mask: Vec::new(),
        receive_link_speed: 0,
        transmit_link_speed: 0,
        dhcp: false,
        subnet_mask: None,
    }
}

#[test]
fn disabled_task_reports_stopped_without_matching() {
    let tasks = vec![task("a", "eth*", &["1.1.1.1"], 1, false)];
    let ifaces = vec![iface("eth0", true, &["8.8.8.8"])];
    let mut throttle = ThrottleMap::new();
    let items = plan_cycle(&tasks, &ifaces, &mut throttle, 100);
    assert_eq!(items.len(), 1);
    assert!(matches!(items[0].action, PlannedAction::Disabled));
    assert_eq!(items[0].interface_name, "eth*");
    assert!(items[0].current_dns.is_empty());
    let status = complete_observation(&items[0], "2024-01-01 00:00:00");
    assert_eq!(status.status, "stopped");
    assert_eq!(status.last_check, "-");
    assert_eq!(status.message, "task disabled");
}

#[test]
fn matched_adapter_with_equal_dns_reports_matched() {
    let tasks = vec![task("a", "eth*", &["1.1.1.1"], 1, true)];
    let ifaces = vec![iface("eth0", true, &["1.1.1.1"])];
    let mut throttle = ThrottleMap::new();
    let items = plan_cycle(&tasks, &ifaces, &mut throttle, 100);
    assert_eq!(items.len(), 1);
    assert!(matches!(items[0].action, PlannedAction::Matched));
    let status = complete_observation(&items[0], "2024-01-01 00:00:00");
    assert_eq!(status.status, "matched");
    assert_eq!(status.message, "DNS configuration correct");
    assert_eq!(status.last_check, "2024-01-01 00:00:00");
}

#[test]
fn down_or_unmatched_adapters_get_no_item() {
    let tasks = vec![task("a", "eth*", &["1.1.1.1"], 1, true)];
    let ifaces = vec![
        iface("eth1", false, &["8.8.8.8"]),
        iface("wlan0", true, &["8.8.8.8"]),
    ];
    let mut throttle = ThrottleMap::new();
    let items = plan_cycle(&tasks, &ifaces, &mut throttle, 100);
    assert_eq!(items.len(), 0);
}

#[test]
fn throttle_allows_one_enforcement_within_the_interval() {
    let tasks = vec![task("a", "eth*", &["1.1.1.1"], 5, true)];
    let ifaces = vec![iface("eth0", true, &["8.8.8.8"])];
    let mut throttle = ThrottleMap::new();

    // first enforcement-eligible cycle: mismatch and due
    let items = plan_cycle(&tasks, &ifaces, &mut throttle, 100);
    assert_eq!(items.len(), 1);
    assert!(matches!(items[0].action, PlannedAction::Apply));

    // a second cycle less than 5 seconds later only waits
    let items2 = plan_cycle(&tasks, &ifaces, &mut throttle, 102);
    assert_eq!(items2.len(), 1);
    assert!(matches!(items2[0].action, PlannedAction::Waiting));
    let status = complete_observation(&items2[0], "2024-01-01 00:00:02");
    assert_eq!(status.status, "running");
    assert_eq!(status.message, "waiting for next check");

    // once the interval has elapsed the task is due again
    let items3 = plan_cycle(&tasks, &ifaces, &mut throttle, 105);
    assert!(matches!(items3[0].action, PlannedAction::Apply));
}

#[test]
fn interval_zero_is_treated_as_one_second() {
    let tasks = vec![task("a", "eth*", &["1.1.1.1"], 0, true)];
    let ifaces = vec![iface("eth0", true, &["8.8.8.8"])];
    let mut throttle = ThrottleMap::new();
    let items = plan_cycle(&tasks, &ifaces, &mut throttle, 100);
    assert!(matches!(items[0].action, PlannedAction::Apply));
    // same second: throttled even with a stored interval of 0
    let items2 = plan_cycle(&tasks, &ifaces, &mut throttle, 100);
    assert!(matches!(items2[0].action, PlannedAction::Waiting));
    // one second later: due again
    let items3 = plan_cycle(&tasks, &ifaces, &mut throttle, 101);
    assert!(matches!(items3[0].action, PlannedAction::Apply));
}

#[test]
fn apply_outcomes_build_the_exact_status_and_log() {
    let tasks = vec![task("a", "eth*", &["1.1.1.1"], 1, true)];
    let ifaces = vec![iface("eth0", true, &["8.8.8.8"])];
    let mut throttle = ThrottleMap::new();
    let items = plan_cycle(&tasks, &ifaces, &mut throttle, 100);
    let item = &items[0];

    let (st, log) = complete_apply(item, "2024-01-01 00:00:00", &ApplyOutcome::Applied);
    assert_eq!(st.status, "applied");
    assert_eq!(st.message, "DNS auto-configured");
    let log = log.expect("success writes a log entry");
    assert_eq!(log.time, "2024-01-01 00:00:00");
    assert_eq!(log.task_id, "a");
    assert_eq!(log.message, "DNS set: eth0 -> 1.1.1.1");

    let (st, log) = complete_apply(
        item,
        "2024-01-01 00:00:00",
        &ApplyOutcome::Failed("permission denied".to_string()),
    );
    assert_eq!(st.status, "dns_mismatch");
    assert_eq!(st.message, "permission denied");
    let log = log.expect("a reported error writes a log entry");
    assert_eq!(log.message, "permission denied");

    let (st, log) = complete_apply(item, "2024-01-01 00:00:00", &ApplyOutcome::Faulted);
    assert_eq!(st.status, "dns_mismatch");
    assert_eq!(st.message, "error while applying DNS");
    assert!(log.is_none());
}

#[test]
fn end_to_end_one_cycle_applies_then_waits() {
    let tasks = vec![task("t1", "eth*", &["1.1.1.1"], 1, true)];
    let ifaces = vec![iface("eth0", true, &["8.8.8.8"])];
    let mut throttle = ThrottleMap::new();
    let mut reg = TaskRegistry::new();

    // first cycle: mismatch, due, apply succeeds
    let items = plan_cycle(&tasks, &ifaces, &mut throttle, 100);
    assert_eq!(items.len(), 1);
    let mut statuses = Vec::new();
    for item in &items {
        if item.action.is_apply() {
            let (st, log) = complete_apply(item, "2024-01-01 00:00:00", &ApplyOutcome::Applied);
            if let Some(l) = log {
                reg.append_log(l);
            }
            statuses.push(st);
        } else {
            statuses.push(complete_observation(item, "2024-01-01 00:00:00"));
        }
    }
    reg.set_statuses(statuses);

    let statuses = reg.get_task_statuses();
    assert_eq!(statuses.len(), 1);
    assert_eq!(statuses[0].status, "applied");
    assert_eq!(statuses[0].current_dns, vec!["8.8.8.8".to_string()]);
    assert_eq!(statuses[0].target_dns, vec!["1.1.1.1".to_string()]);
    assert_eq!(reg.get_logs().len(), 1);

    // second cycle in the same second: throttled, only waiting
    let items = plan_cycle(&tasks, &ifaces, &mut throttle, 100);
    assert_eq!(items.len(), 1);
    assert!(!items[0].action.is_apply());
    let st = complete_observation(&items[0], "2024-01-01 00:00:00");
    assert_eq!(st.status, "running");
    // no new log entry without an enforcement attempt
    assert_eq!(reg.get_logs().len(), 1);
}

#[test]
fn evaluation_follows_task_then_adapter_order() {
    let tasks = vec![
        task("a", "eth*", &["1.1.1.1"], 1, true),
        task("b", "*", &["9.9.9.9"], 1, true),
    ];
    let ifaces = vec![
        iface("eth0", true, &["1.1.1.1"]),
        iface("eth1", true, &["1.1.1.1"]),
    ];
    let mut throttle = ThrottleMap::new();
    let items = plan_cycle(&tasks, &ifaces, &mut throttle, 100);
    assert_eq!(items.len(), 4);
    assert_eq!(items[0].task_id, "a");
    assert_eq!(items[0].interface_name, "eth0");
    assert_eq!(items[1].task_id, "a");
    assert_eq!(items[1].interface_name, "eth1");
    assert_eq!(items[2].task_id, "b");
    assert_eq!(items[2].interface_name, "eth0");
    assert_eq!(items[3].task_id, "b");
    assert_eq!(items[3].interface_name, "eth1");
}

#[test]
fn observe_now_stamps_with_the_real_clock() {
    let tasks = vec![task("a", "eth*", &["1.1.1.1"], 1, true)];
    let ifaces = vec![iface("eth0", true, &["1.1.1.1"])];
    let mut throttle = ThrottleMap::new();
    let items = plan_cycle(&tasks, &ifaces, &mut throttle, 100);
    let status = dns_monitor::clock::observe_now(&items[0]);
    assert_eq!(status.status, "matched");
    assert_eq!(status.message, "DNS configuration correct");
    assert!(!status.last_check.is_empty());
}
