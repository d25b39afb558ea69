//! Start/stop/restore semantics over the reconciliation loop.
//!
//! The controller holds the run flag the loop polls and the persisted
//! "monitoring enabled" flag. At most one loop may be active: a start
//! while running is rejected, so only the caller that got `Ok` spawns a
//! worker, and the surrounding process performs the whole check-and-set
//! under one lock. Stopping is advisory: the flag is cleared and the loop
//! observes it at its next iteration boundary.

use vstd::prelude::*;
use crate::model::DnsError;

verus! {

/// The run flag and the persisted monitoring flag.
pub struct LifecycleController {
    running: bool,
    monitoring_enabled: bool,
}

impl LifecycleController {
    /// Whether the reconciliation loop is supposed to be running.
    pub closed spec fn spec_running(&self) -> bool {
        self.running
    }

    /// Whether monitoring is enabled, the flag mirrored to persistence.
    pub closed spec fn spec_enabled(&self) -> bool {
        self.monitoring_enabled
    }

    /// A fresh controller: stopped, monitoring disabled.
    pub fn new() -> (r: LifecycleController)
        ensures
            !r.spec_running(),
            !r.spec_enabled(),
    {
        LifecycleController { running: false, monitoring_enabled: false }
    }

    /// Takes the monitoring flag read from persistence at startup. The
    /// run flag is untouched; a true flag makes [`Self::should_restore`]
    /// ask for a start.
    pub fn restore_from(&mut self, enabled: bool)
        ensures
            final(self).spec_enabled() == enabled,
            final(self).spec_running() == old(self).spec_running(),
    {
        self.monitoring_enabled = enabled;
    }

    /// Whether startup restore should start monitoring: exactly when the
    /// persisted flag was true.
    pub fn should_restore(&self) -> (r: bool)
        ensures
            r == self.spec_enabled(),
    {
        self.monitoring_enabled
    }

    /// Requests a start. Rejected with `AlreadyRunning` while the loop
    /// runs, and nothing changes; otherwise both flags are set and
    /// exactly the caller that got `Ok` spawns the one worker.
    pub fn start(&mut self) -> (r: Result<(), DnsError>)
        ensures
            old(self).spec_running() ==> r == Err::<(), DnsError>(DnsError::AlreadyRunning)
                && final(self).spec_running() == old(self).spec_running()
                && final(self).spec_enabled() == old(self).spec_enabled(),
            !old(self).spec_running() ==> r == Ok::<(), DnsError>(()) && final(self).spec_running()
                && final(self).spec_enabled(),
    {
        if self.running {
            return Err(DnsError::AlreadyRunning);
        }
        self.running = true;
        self.monitoring_enabled = true;
        Ok(())
    }

    /// Clears both flags. The running loop sees the cleared run flag at
    /// its next iteration boundary; at most one more cycle may finish.
    pub fn stop(&mut self)
        ensures
            !final(self).spec_running(),
            !final(self).spec_enabled(),
    {
        self.running = false;
        self.monitoring_enabled = false;
    }

    /// The current run flag.
    pub fn is_running(&self) -> (r: bool)
        ensures
            r == self.spec_running(),
    {
        self.running
    }
}

} // verus!
