use dns_monitor::model::{DnsError, DnsTask, LogEntry, TaskStatus};
use dns_monitor::registry::TaskRegistry;

fn task(id: &str, name: &str) -> DnsTask {
    DnsTask {
        id: id.to_string(),
        name: name.to_string(),
        interface_pattern: "eth*".to_string(),
        target_dns: vec!["1.1.1.1".to_string()],
        enabled: true,
        created_at: 0,
        interval: 1,
    }
}

fn entry(n: usize) -> LogEntry {
    LogEntry {
        time: format!("t{}", n),
        task_id: "a".to_string(),
        task_name: "task".to_string(),
        message: format!("message {}", n),
    }
}

#[test]
fn duplicate_id_is_rejected_and_one_entry_remains() {
    let mut reg = TaskRegistry::new();
    assert!(reg.add_task(task("a", "first")).is_ok());
    let second = reg.add_task(task("a", "second"));
    assert!(matches!(second, Err(DnsError::DuplicateId)));
    let tasks = reg.get_tasks();
    assert_eq!(tasks.len(), 1);
    assert_eq!(tasks[0].name, "first");
}

#[test]
fn add_then_list_returns_snapshot() {
    let mut reg = TaskRegistry::new();
    reg.add_task(task("a", "one")).unwrap();
    reg.add_task(task("b", "two")).unwrap();
    let tasks = reg.get_tasks();
    assert_eq!(tasks.len(), 2);
    assert_eq!(tasks[0].id, "a");
    assert_eq!(tasks[1].id, "b");
}

#[test]
fn remove_filters_by_id() {
    let mut reg = TaskRegistry::new();
    reg.add_task(task("a", "one")).unwrap();
    reg.add_task(task("b", "two")).unwrap();
    assert!(reg.remove_task("a").is_ok());
    let tasks = reg.get_tasks();
    assert_eq!(tasks.len(), 1);
    assert_eq!(tasks[0].id, "b");
    // removing an absent id succeeds and changes nothing
    assert!(reg.remove_task("zz").is_ok());
    assert_eq!(reg.get_tasks().len(), 1);
}

#[test]
fn update_replaces_in_place() {
    let mut reg = TaskRegistry::new();
    reg.add_task(task("a", "one")).unwrap();
    reg.add_task(task("b", "two")).unwrap();
    let mut changed = task("b", "two renamed");
    changed.interval = 9;
    assert!(reg.update_task(changed).is_ok());
    let tasks = reg.get_tasks();
    assert_eq!(tasks.len(), 2);
    assert_eq!(tasks[1].name, "two renamed");
    assert_eq!(tasks[1].interval, 9);
}

#[test]
fn update_of_missing_id_fails_with_not_found() {
    let mut reg = TaskRegistry::new();
    reg.add_task(task("a", "one")).unwrap();
    let r = reg.update_task(task("zz", "ghost"));
    assert!(matches!(r, Err(DnsError::NotFound)));
    let msg = match r {
        Err(e) => e.message(),
        Ok(_) => String::new(),
    };
    assert_eq!(msg, "Task not found");
    assert_eq!(reg.get_tasks().len(), 1);
}

#[test]
fn log_buffer_keeps_the_hundred_most_recent() {
    let mut reg = TaskRegistry::new();
    for n in 0..150 {
        reg.append_log(entry(n));
    }
    let logs = reg.get_logs();
    assert_eq!(logs.len(), 100);
    // newest first, in descending recency order
    for (i, l) in logs.iter().enumerate() {
        assert_eq!(l.message, format!("message {}", 149 - i));
    }
}

#[test]
fn clear_logs_empties_the_buffer() {
    let mut reg = TaskRegistry::new();
    reg.append_log(entry(1));
    reg.append_log(entry(2));
    assert_eq!(reg.get_logs().len(), 2);
    reg.clear_logs();
    assert_eq!(reg.get_logs().len(), 0);
}

#[test]
fn statuses_are_replaced_wholesale() {
    let mut reg = TaskRegistry::new();
    let status = TaskStatus {
        task_id: "a".to_string(),
        task_name: "task".to_string(),
        interface_name: "eth0".to_string(),
        current_dns: vec!["8.8.8.8".to_string()],
        target_dns: vec!["1.1.1.1".to_string()],
        status: "matched".to_string(),
        last_check: "2024-01-01 00:00:00".to_string(),
        message: "DNS configuration correct".to_string(),
    };
    reg.set_statuses(vec![status]);
    assert_eq!(reg.get_task_statuses().len(), 1);
    reg.set_statuses(Vec::new());
    assert_eq!(reg.get_task_statuses().len(), 0);
}

#[test]
fn duplicate_id_error_message() {
    let mut reg = TaskRegistry::new();
    reg.add_task(task("a", "one")).unwrap();
    let msg = match reg.add_task(task("a", "again")) {
        Err(e) => e.message(),
        Ok(_) => String::new(),
    };
    assert_eq!(msg, "Duplicate task id");
}
