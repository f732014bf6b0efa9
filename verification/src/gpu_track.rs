//! Per-device quarantine bookkeeping for an accelerator worker: repeated
//! device errors or invalid results make the device abandon the active
//! job; a new job gives it a fresh chance.

use vstd::prelude::*;

verus! {

/// Counters a device worker keeps about the active job.
pub struct GpuTracker {
    /// Consecutive device errors (failed dispatches or resets).
    pub consecutive_errors: u32,
    /// Consecutive results that failed hash re-verification.
    pub consecutive_invalid: u32,
    /// The device has abandoned the current job.
    pub failed: bool,
}

impl GpuTracker {
    /// A live (not failed) device has seen at most two consecutive errors
    /// and at most two consecutive invalid results: the third of either
    /// quarantines it.
    pub open spec fn wf(&self) -> bool {
        !self.failed ==> self.consecutive_errors <= 2 && self.consecutive_invalid <= 2
    }

    /// A fresh device: no errors, not quarantined.
    pub fn new() -> (r: GpuTracker)
        ensures
            r.wf(),
            r.consecutive_errors == 0,
            r.consecutive_invalid == 0,
            !r.failed,
    {
        GpuTracker { consecutive_errors: 0, consecutive_invalid: 0, failed: false }
    }

    /// The device produced a nonce that re-verified: both streaks end.
    pub fn on_valid_hit(&mut self)
        requires
            old(self).wf(),
        ensures
            final(self).wf(),
            final(self).consecutive_errors == 0,
            final(self).consecutive_invalid == 0,
            final(self).failed == old(self).failed,
    {
        self.consecutive_errors = 0;
        self.consecutive_invalid = 0;
    }

    /// A productive dispatch without a hit: the error streak ends.
    pub fn on_no_hit(&mut self)
        requires
            old(self).wf(),
        ensures
            final(self).wf(),
            final(self).consecutive_errors == 0,
            final(self).consecutive_invalid == old(self).consecutive_invalid,
            final(self).failed == old(self).failed,
    {
        self.consecutive_errors = 0;
    }

    /// The device reported a nonce that failed re-verification: both
    /// streaks grow, and the third consecutive invalid result or third
    /// consecutive error quarantines the device.
    pub fn on_invalid(&mut self)
        requires
            old(self).wf(),
            !old(self).failed,
        ensures
            final(self).wf(),
            final(self).consecutive_errors == old(self).consecutive_errors + 1,
            final(self).consecutive_invalid == old(self).consecutive_invalid + 1,
            final(self).failed == (old(self).consecutive_invalid + 1 >= 3 || old(self).consecutive_errors + 1 >= 3),
    {
        self.consecutive_errors = self.consecutive_errors + 1;
        self.consecutive_invalid = self.consecutive_invalid + 1;
        if self.consecutive_invalid >= 3 {
            self.failed = true;
        }
        if self.consecutive_errors >= 3 {
            self.failed = true;
        }
    }

    /// A device error. The buffers are rebuilt by the caller; if that
    /// failed the device is quarantined at once, and either way the error
    /// streak grows, quarantining the device at three.
    pub fn on_device_error(&mut self, reset_ok: bool)
        requires
            old(self).wf(),
            !old(self).failed,
        ensures
            final(self).wf(),
            final(self).consecutive_errors == old(self).consecutive_errors + 1,
            final(self).consecutive_invalid == old(self).consecutive_invalid,
            final(self).failed == (!reset_ok || old(self).consecutive_errors + 1 >= 3),
    {
        if !reset_ok {
            self.failed = true;
        }
        self.consecutive_errors = self.consecutive_errors + 1;
        if self.consecutive_errors >= 3 {
            self.failed = true;
        }
    }

    /// The worker re-entered job acquisition: a changed root lifts the
    /// quarantine and starts the new job with clean streaks (a new job is
    /// a new chance). The result says whether the worker still counts as
    /// given up on the active job — and so must report its failure before
    /// waiting for the next one.
    pub fn on_new_root(&mut self, root_changed: bool) -> (r: bool)
        requires
            old(self).wf(),
        ensures
            final(self).wf(),
            final(self).failed == (old(self).failed && !root_changed),
            root_changed ==> final(self).consecutive_errors == 0 && final(self).consecutive_invalid == 0,
            !root_changed ==> final(self).consecutive_errors == old(self).consecutive_errors
                && final(self).consecutive_invalid == old(self).consecutive_invalid,
            r == final(self).failed,
    {
        if root_changed {
            self.failed = false;
            self.consecutive_errors = 0;
            self.consecutive_invalid = 0;
        }
        self.failed
    }

    /// Programming the device with the acquired job: success starts the
    /// job with clean counters, failure quarantines the device for it.
    pub fn on_program_result(&mut self, program_ok: bool)
        requires
            old(self).wf(),
        ensures
            final(self).wf(),
            program_ok ==> !final(self).failed && final(self).consecutive_errors == 0 && final(self).consecutive_invalid == 0,
            !program_ok ==> final(self).failed && final(self).consecutive_errors == old(self).consecutive_errors && final(self).consecutive_invalid == old(self).consecutive_invalid,
    {
        if program_ok {
            self.failed = false;
            self.consecutive_errors = 0;
            self.consecutive_invalid = 0;
        } else {
            self.failed = true;
        }
    }
}

} // verus!
