//! The wall clock, and status completion stamped with it.
//!
//! The time is the one input the cycle cannot compute, so the reading is
//! trusted and everything that follows it is verified: the completion
//! functions here read the clock once and hand the text to the exact
//! completion functions of the monitor, which are verified for every
//! timestamp value.

use vstd::prelude::*;
use crate::model::{LogEntry, TaskStatus};
use crate::monitor::{complete_apply, complete_observation, ApplyOutcome, PlannedStatus};

verus! {

/// Relies on chrono's `Local::now` and its format machinery: the local
/// wall-clock time written as `YYYY-MM-DD HH:MM:SS`. The result depends
/// on the clock and time zone, so nothing is promised of it.
#[verifier::external_body]
fn local_timestamp() -> (r: String) {
    chrono::Local::now().format("%Y-%m-%d %H:%M:%S").to_string()
}

/// The status row of an item that attempted nothing, stamped with the
/// wall clock; apart from the timestamp text, exactly what
/// [`complete_observation`] promises.
pub fn observe_now(item: &PlannedStatus) -> (r: TaskStatus)
    requires
        !(item@.action is Apply),
    ensures
        r@.task_id == item@.task_id,
        r@.task_name == item@.task_name,
        r@.interface_name == item@.interface_name,
        r@.current_dns == item@.current_dns,
        r@.target_dns == item@.target_dns,
        item@.action is Disabled ==> r@.status == "stopped"@ && r@.last_check == "-"@
            && r@.message == "task disabled"@,
        item@.action is Waiting ==> r@.status == "running"@ && r@.message
            == "waiting for next check"@,
        item@.action is Matched ==> r@.status == "matched"@ && r@.message
            == "DNS configuration correct"@,
{
    let ts = local_timestamp();
    complete_observation(item, ts.as_str())
}

/// The status row and log entry of an enforcement attempt, stamped with
/// the wall clock; apart from the timestamp text, exactly what
/// [`complete_apply`] promises, and the log entry carries the same
/// timestamp the status row does.
pub fn enforce_now(item: &PlannedStatus, outcome: &ApplyOutcome) -> (r: (
    TaskStatus,
    Option<LogEntry>,
))
    requires
        item@.action is Apply,
    ensures
        r.0@.task_id == item@.task_id,
        r.0@.task_name == item@.task_name,
        r.0@.interface_name == item@.interface_name,
        r.0@.current_dns == item@.current_dns,
        r.0@.target_dns == item@.target_dns,
        *outcome is Applied ==> r.0@.status == "applied"@ && r.0@.message
            == "DNS auto-configured"@ && (match r.1 {
            Some(l) => l@.time == r.0@.last_check && l@.task_id == item@.task_id && l@.task_name
                == item@.task_name && l@.message == crate::monitor::spec_apply_log_message(item@),
            None => false,
        }),
        (match *outcome {
            ApplyOutcome::Failed(e) => r.0@.status == "dns_mismatch"@ && r.0@.message == e@
                && (match r.1 {
                Some(l) => l@.time == r.0@.last_check && l@.task_id == item@.task_id
                    && l@.task_name == item@.task_name && l@.message == e@,
                None => false,
            }),
            _ => true,
        }),
        *outcome is Faulted ==> r.0@.status == "dns_mismatch"@ && r.0@.message
            == "error while applying DNS"@ && r.1 is None,
{
    let ts = local_timestamp();
    complete_apply(item, ts.as_str(), outcome)
}

} // verus!
