//! Per-task timing: queued, started and completed timestamps.
//!
//! Purely observational: removing the timer changes no compile output. The
//! run-wide timer is an explicit value threaded from the entry point through
//! the scheduler, never ambient global state; rendering the collected
//! timeline is the caller's affair.

use vstd::prelude::*;

use crate::ident::AnyWorkId;

verus! {

/// Relies on std::time::SystemTime::now for one wall-clock sample, reduced
/// to whole milliseconds since the epoch; nothing is promised of the value.
#[verifier::external_body]
fn now_millis() -> u64 {
    std::time::SystemTime::now()
        .duration_since(std::time::UNIX_EPOCH)
        .map(|d| d.as_millis() as u64)
        .unwrap_or(0)
}

/// A task known to the timer but not yet enqueued.
pub struct JobTimePending {
    pub id: AnyWorkId,
}

/// A task stamped at the moment it was enqueued for scheduling.
pub struct JobTimeQueued {
    pub id: AnyWorkId,
    pub queued: u64,
}

/// A task stamped when a worker began executing it.
pub struct JobTimeRunning {
    pub id: AnyWorkId,
    pub queued: u64,
    pub started: u64,
}

/// The full timing record of one finished task.
pub struct JobTime {
    pub id: AnyWorkId,
    pub queued: u64,
    pub started: u64,
    pub completed: u64,
}

/// Begins timing the task with the given identity.
pub fn create_timer(id: AnyWorkId) -> (r: JobTimePending)
    ensures
        r.id == id,
{
    JobTimePending { id }
}

impl JobTimePending {
    /// Stamps the moment the task was enqueued.
    pub fn queued(self) -> (r: JobTimeQueued)
        ensures
            r.id == self.id,
    {
        let t = now_millis();
        JobTimeQueued { id: self.id, queued: t }
    }
}

impl JobTimeQueued {
    /// Stamps the moment a worker began the task.
    pub fn run(self) -> (r: JobTimeRunning)
        ensures
            r.id == self.id,
            r.queued == self.queued,
    {
        let t = now_millis();
        JobTimeRunning { id: self.id, queued: self.queued, started: t }
    }
}

impl JobTimeRunning {
    /// Stamps the moment the task's result was recorded.
    pub fn complete(self) -> (r: JobTime)
        ensures
            r.id == self.id,
            r.queued == self.queued,
            r.started == self.started,
    {
        let t = now_millis();
        JobTime { id: self.id, queued: self.queued, started: self.started, completed: t }
    }
}

/// The run-wide collection of finished task timings.
pub struct JobTimer {
    entries: Vec<JobTime>,
}

impl JobTimer {
    /// The records collected so far, oldest first.
    pub closed spec fn view(&self) -> Seq<JobTime> {
        self.entries@
    }

    /// An empty timeline.
    pub fn new() -> (r: JobTimer)
        ensures
            r@ == Seq::<JobTime>::empty(),
    {
        JobTimer { entries: Vec::new() }
    }

    /// Appends one finished task's record.
    pub fn add(&mut self, time: JobTime)
        ensures
            final(self)@ == old(self)@.push(time),
    {
        self.entries.push(time);
    }

    /// The collected records, for rendering a timeline.
    pub fn timeline(&self) -> (r: &Vec<JobTime>)
        ensures
            r@ == self@,
    {
        &self.entries
    }
}

} // verus!
