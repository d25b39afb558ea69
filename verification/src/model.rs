//! Data model of the DNS task monitor: tasks, statuses, log entries,
//! adapter snapshots, configuration requests, and the error taxonomy.

use vstd::prelude::*;
use crate::text::clone_strings;

verus! {

/// A user-declared policy: keep every adapter whose name matches
/// `interface_pattern` on the DNS servers in `target_dns`.
pub struct DnsTask {
    /// Unique, stable identifier; the registry rejects duplicates.
    pub id: String,
    /// Display label.
    pub name: String,
    /// Wildcard pattern matched against adapter names.
    pub interface_pattern: String,
    /// Ordered list of target DNS server addresses.
    pub target_dns: Vec<String>,
    /// Disabled tasks are reported as stopped and never enforced.
    pub enabled: bool,
    /// Creation timestamp, assigned by the caller.
    pub created_at: i64,
    /// Minimum seconds between enforcement attempts; treated as at least 1.
    pub interval: u64,
}

/// Ghost image of a [`DnsTask`]: every field as a mathematical value.
pub struct TaskView {
    pub id: Seq<char>,
    pub name: Seq<char>,
    pub interface_pattern: Seq<char>,
    pub target_dns: Seq<Seq<char>>,
    pub enabled: bool,
    pub created_at: i64,
    pub interval: u64,
}

impl View for DnsTask {
    type V = TaskView;

    open spec fn view(&self) -> TaskView {
        TaskView {
            id: self.id@,
            name: self.name@,
            interface_pattern: self.interface_pattern@,
            target_dns: self.target_dns.deep_view(),
            enabled: self.enabled,
            created_at: self.created_at,
            interval: self.interval,
        }
    }
}

impl DeepView for DnsTask {
    type V = TaskView;

    open spec fn deep_view(&self) -> TaskView {
        self.view()
    }
}

impl Clone for DnsTask {
    /// A copy whose ghost image equals the source value's.
    fn clone(&self) -> (r: Self)
        ensures
            r@ == self@,
    {
        DnsTask {
            id: self.id.clone(),
            name: self.name.clone(),
            interface_pattern: self.interface_pattern.clone(),
            target_dns: clone_strings(&self.target_dns),
            enabled: self.enabled,
            created_at: self.created_at,
            interval: self.interval,
        }
    }
}

/// The interval a task gets when none is stored: one second.
pub fn default_interval() -> (r: u64)
    ensures
        r == 1u64,
{
    1
}

/// Latest evaluated state of one (task, matched adapter) pair. Recomputed
/// every cycle; the whole list is replaced wholesale, never merged.
pub struct TaskStatus {
    pub task_id: String,
    pub task_name: String,
    /// The concrete adapter that matched, or the raw pattern for a
    /// disabled task (no match was attempted).
    pub interface_name: String,
    pub current_dns: Vec<String>,
    pub target_dns: Vec<String>,
    /// One of `"stopped"`, `"running"`, `"matched"`, `"dns_mismatch"`,
    /// `"applied"`.
    pub status: String,
    /// Human-readable timestamp, or `"-"` when no check was made.
    pub last_check: String,
    pub message: String,
}

/// Ghost image of a [`TaskStatus`].
pub struct StatusView {
    pub task_id: Seq<char>,
    pub task_name: Seq<char>,
    pub interface_name: Seq<char>,
    pub current_dns: Seq<Seq<char>>,
    pub target_dns: Seq<Seq<char>>,
    pub status: Seq<char>,
    pub last_check: Seq<char>,
    pub message: Seq<char>,
}

impl View for TaskStatus {
    type V = StatusView;

    open spec fn view(&self) -> StatusView {
        StatusView {
            task_id: self.task_id@,
            task_name: self.task_name@,
            interface_name: self.interface_name@,
            current_dns: self.current_dns.deep_view(),
            target_dns: self.target_dns.deep_view(),
            status: self.status@,
            last_check: self.last_check@,
            message: self.message@,
        }
    }
}

impl DeepView for TaskStatus {
    type V = StatusView;

    open spec fn deep_view(&self) -> StatusView {
        self.view()
    }
}

impl Clone for TaskStatus {
    /// A copy whose ghost image equals the source value's.
    fn clone(&self) -> (r: Self)
        ensures
            r@ == self@,
    {
        TaskStatus {
            task_id: self.task_id.clone(),
            task_name: self.task_name.clone(),
            interface_name: self.interface_name.clone(),
            current_dns: clone_strings(&self.current_dns),
            target_dns: clone_strings(&self.target_dns),
            status: self.status.clone(),
            last_check: self.last_check.clone(),
            message: self.message.clone(),
        }
    }
}

/// Immutable record of one enforcement attempt, newest first in the
/// registry's bounded buffer.
pub struct LogEntry {
    pub time: String,
    pub task_id: String,
    pub task_name: String,
    pub message: String,
}

/// Ghost image of a [`LogEntry`].
pub struct LogView {
    pub time: Seq<char>,
    pub task_id: Seq<char>,
    pub task_name: Seq<char>,
    pub message: Seq<char>,
}

impl View for LogEntry {
    type V = LogView;

    open spec fn view(&self) -> LogView {
        LogView {
            time: self.time@,
            task_id: self.task_id@,
            task_name: self.task_name@,
            message: self.message@,
        }
    }
}

impl DeepView for LogEntry {
    type V = LogView;

    open spec fn deep_view(&self) -> LogView {
        self.view()
    }
}

impl Clone for LogEntry {
    /// A copy whose ghost image equals the source value's.
    fn clone(&self) -> (r: Self)
        ensures
            r@ == self@,
    {
        LogEntry {
            time: self.time.clone(),
            task_id: self.task_id.clone(),
            task_name: self.task_name.clone(),
            message: self.message.clone(),
        }
    }
}

/// Snapshot of one network adapter, supplied by the enumeration
/// collaborator each cycle. The core only reads it.
pub struct NetworkInterface {
    pub name: String,
    pub description: Option<String>,
    pub mac_address: Option<String>,
    pub ipv4: Vec<String>,
    pub ipv6: Vec<String>,
    pub dns_servers: Vec<String>,
    pub enabled: bool,
    pub if_type: Option<String>,
    pub gateways: Vec<String>,
    pub guid: Option<String>,
    pub mask: Vec<String>,
    pub receive_link_speed: u64,
    pub transmit_link_speed: u64,
    pub dhcp: bool,
    pub subnet_mask: Option<String>,
}

/// Ghost image of the adapter fields that reconciliation reads: the name,
/// whether the adapter is up, and its current DNS servers. The remaining
/// fields are descriptive and never influence a decision.
pub struct IfaceView {
    pub name: Seq<char>,
    pub enabled: bool,
    pub dns_servers: Seq<Seq<char>>,
}

impl View for NetworkInterface {
    type V = IfaceView;

    open spec fn view(&self) -> IfaceView {
        IfaceView {
            name: self.name@,
            enabled: self.enabled,
            dns_servers: self.dns_servers.deep_view(),
        }
    }
}

impl DeepView for NetworkInterface {
    type V = IfaceView;

    open spec fn deep_view(&self) -> IfaceView {
        self.view()
    }
}

/// Request to set the DNS servers of one adapter.
pub struct DnsConfig {
    pub interface_name: String,
    pub dns_servers: Vec<String>,
}

/// Request to reconfigure one adapter: DHCP, or a static address with
/// optional gateway and DNS servers.
pub struct NetworkConfig {
    pub interface_name: String,
    pub dhcp: bool,
    pub ip_address: String,
    pub subnet_mask: String,
    pub gateway: String,
    pub dns: Vec<String>,
}

/// Ghost image of a [`NetworkConfig`].
#[verifier::ext_equal]
pub struct ConfigView {
    pub interface_name: Seq<char>,
    pub dhcp: bool,
    pub ip_address: Seq<char>,
    pub subnet_mask: Seq<char>,
    pub gateway: Seq<char>,
    pub dns: Seq<Seq<char>>,
}

impl View for NetworkConfig {
    type V = ConfigView;

    open spec fn view(&self) -> ConfigView {
        ConfigView {
            interface_name: self.interface_name@,
            dhcp: self.dhcp,
            ip_address: self.ip_address@,
            subnet_mask: self.subnet_mask@,
            gateway: self.gateway@,
            dns: self.dns.deep_view(),
        }
    }
}

/// Why an operation failed. Lock poisoning and collaborator faults are
/// contained where they occur and reported through these variants; none of
/// them may terminate the process.
#[derive(Debug)]
pub enum DnsError {
    /// A guarded resource is in a poisoned, unusable state.
    LockFailure,
    /// An update named a task id that is not in the registry.
    NotFound,
    /// A second start while the reconciliation loop is already running.
    AlreadyRunning,
    /// An add named a task id that is already in the registry. Duplicate
    /// ids are rejected; the first task keeps its entry.
    DuplicateId,
    /// Adapter enumeration or DNS application reported an error.
    CollaboratorError(String),
    /// Adapter enumeration or DNS application raised an unexpected fault,
    /// isolated so it cannot escape the loop.
    CollaboratorPanic,
    /// The durable store failed; in-memory state stays usable.
    PersistenceError(String),
}

impl DnsError {
    /// The failure reason as a string, as the command surface reports it.
    pub fn message(&self) -> (r: String)
        ensures
            *self is LockFailure ==> r@ == "lock poisoned"@,
            *self is NotFound ==> r@ == "Task not found"@,
            *self is AlreadyRunning ==> r@ == "Already running"@,
            *self is DuplicateId ==> r@ == "Duplicate task id"@,
            forall|s: String| *self == DnsError::CollaboratorError(s) ==> r@ == s@,
            *self is CollaboratorPanic ==> r@ == "collaborator fault"@,
            forall|s: String| *self == DnsError::PersistenceError(s) ==> r@ == s@,
    {
        match self {
            DnsError::LockFailure => String::from_str("lock poisoned"),
            DnsError::NotFound => String::from_str("Task not found"),
            DnsError::AlreadyRunning => String::from_str("Already running"),
            DnsError::DuplicateId => String::from_str("Duplicate task id"),
            DnsError::CollaboratorError(s) => s.clone(),
            DnsError::CollaboratorPanic => String::from_str("collaborator fault"),
            DnsError::PersistenceError(s) => s.clone(),
        }
    }
}

} // verus!
