//! DNS task monitor: keeps network adapters aligned with user-declared DNS
//! policies. Each task binds a wildcard adapter-name pattern to a target DNS
//! list; a reconciliation cycle evaluates every task against every adapter,
//! applies the target configuration where it differs, and reports statuses.
//!
//! The crate holds the verified core: the data model, the pattern matcher,
//! the order-insensitive DNS comparator, the task registry with its bounded
//! log buffer, the lifecycle controller, the per-task throttle, and the
//! planning and completion of one reconciliation cycle. The surrounding
//! process supplies adapter snapshots, runs the planned commands, and stores
//! tasks durably; it hands plain values in and takes plain values back.

pub mod clock;
pub mod dns_cmp;
pub mod lifecycle;
pub mod model;
pub mod monitor;
pub mod netcfg;
pub mod pattern;
pub mod registry;
pub mod text;
pub mod throttle;
