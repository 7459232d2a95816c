//! The background monitor's state: one authoritative running flag, and a run
//! number that tells the worker of the current run from retired ones.
use vstd::prelude::*;
use crate::pixels::{fingerprint_of, FingerprintTracker, RawImage};
use crate::text::push_str;

verus! {

/// The abstract state of a monitor.
pub struct MonitorState {
    pub running: bool,
    /// Number of the current (or last) run.
    pub run: u64,
}

/// The run number that follows `run` (wrapping around).
pub open spec fn next_run(run: u64) -> u64 {
    if run == u64::MAX {
        0
    } else {
        (run + 1) as u64
    }
}

impl MonitorState {
    /// The state after a start: unchanged while running, else a new run.
    pub open spec fn started(self) -> MonitorState {
        if self.running {
            self
        } else {
            MonitorState { running: true, run: next_run(self.run) }
        }
    }

    /// The state after a stop.
    pub open spec fn stopped(self) -> MonitorState {
        MonitorState { running: false, run: self.run }
    }

    /// Whether the worker of run `run` is to keep polling.
    pub open spec fn keeps(self, run: u64) -> bool {
        self.running && self.run == run
    }
}

/// Owner-side handle of the continuous capture worker.
pub struct ClipboardMonitor {
    running: bool,
    run: u64,
}

/// What one run's worker owns: its run number, a snapshot of the save
/// directory, and its own fingerprint memory.
pub struct MonitorWorker {
    pub run: u64,
    pub save_dir: String,
    pub tracker: FingerprintTracker,
}

impl View for ClipboardMonitor {
    type V = MonitorState;

    closed spec fn view(&self) -> MonitorState {
        MonitorState { running: self.running, run: self.run }
    }
}

impl ClipboardMonitor {
    /// A stopped monitor.
    pub fn new() -> (r: ClipboardMonitor)
        ensures
            r@ == (MonitorState { running: false, run: 0 }),
    {
        ClipboardMonitor { running: false, run: 0 }
    }

    /// Starts a run saving into `save_dir`: a no-op returning `None` while
    /// running; otherwise marks the monitor running and returns the new run's
    /// worker, which the caller sets going. The worker keeps its own copy of
    /// the directory.
    pub fn start(&mut self, save_dir: &str) -> (r: Option<MonitorWorker>)
        ensures
            final(self)@ == old(self)@.started(),
            r is Some <==> !old(self)@.running,
            r matches Some(w) ==> {
                &&& w.run == final(self)@.run
                &&& w.save_dir@ == save_dir@
                &&& w.tracker.last is None
            },
    {
        if self.running {
            return None;
        }
        self.running = true;
        self.run = if self.run == u64::MAX { 0 } else { self.run + 1 };
        let mut dir = String::new();
        push_str(&mut dir, save_dir);
        Some(MonitorWorker { run: self.run, save_dir: dir, tracker: FingerprintTracker::new() })
    }

    /// Clears the running flag; the worker leaves at its next check.
    pub fn stop(&mut self)
        ensures
            final(self)@ == old(self)@.stopped(),
    {
        self.running = false;
    }

    /// Whether the monitor is running.
    pub fn is_running(&self) -> (r: bool)
        ensures
            r == self@.running,
    {
        self.running
    }

    /// Whether `worker` belongs to the current run and the monitor still runs.
    pub fn should_continue(&self, worker: &MonitorWorker) -> (r: bool)
        ensures
            r == self@.keeps(worker.run),
    {
        self.running && self.run == worker.run
    }
}

impl MonitorWorker {
    /// One poll's decision: the clipboard image to save, if there is one and
    /// it differs from the last one this worker saw.
    pub fn poll(&mut self, current: Option<RawImage>) -> (r: Option<RawImage>)
        requires
            current matches Some(img) ==> img.wf(),
        ensures
            final(self).run == old(self).run,
            final(self).save_dir == old(self).save_dir,
            match current {
                Some(img) => {
                    let fp = fingerprint_of(img.width, img.height, img.pixels@);
                    &&& final(self).tracker.last == Some(fp)
                    &&& r == if old(self).tracker.last != Some(fp) { Some(img) } else { None::<RawImage> }
                },
                None => r is None && final(self).tracker == old(self).tracker,
            },
    {
        match current {
            Some(img) => {
                if self.tracker.is_new(&img) {
                    Some(img)
                } else {
                    None
                }
            },
            None => None,
        }
    }
}

/// Starting a running monitor changes nothing and sets no second worker
/// going: after two starts in a row exactly one run is active, and the
/// monitor reports running throughout.
pub proof fn lemma_start_twice(m: MonitorState)
    ensures
        m.started().running,
        m.started().started() == m.started(),
{
}

/// Once a monitor is stopped and started again, the earlier run's worker
/// no longer continues, even if it has not yet seen the stop.
pub proof fn lemma_restart_retires_worker(m: MonitorState)
    ensures
        !m.stopped().keeps(m.run),
        !m.stopped().started().keeps(m.run),
        m.stopped().started().keeps(m.stopped().started().run),
{
}

} // verus!
