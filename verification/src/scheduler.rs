//! The background synchronisation scheduler: whether it runs, what a start
//! or stop request does, and the parameters of a start.

use vstd::prelude::*;
use crate::paging::DataTableResponse;

verus! {

/// The scheduler's state: whether it runs, and whether a background task
/// handle is held.
pub struct SchedulerState {
    pub running: bool,
    pub has_task: bool,
}

/// What a start request did.
#[derive(Debug, Clone, Copy, PartialEq, Eq, Structural)]
pub enum StartOutcome {
    /// It was already running; nothing changed.
    AlreadyRunning,
    /// It now runs; the caller spawns the periodic task.
    Started,
}

/// What a stop request did.
#[derive(Debug, Clone, Copy, PartialEq, Eq, Structural)]
pub enum StopOutcome {
    /// It was not running; nothing changed.
    NotRunning,
    /// It no longer runs; the held task, if any, is to be aborted.
    Stopped { abort_task: bool },
}

/// The state after a start request: running, with the task handle as
/// before.
pub open spec fn after_start(s: SchedulerState) -> SchedulerState {
    SchedulerState { running: true, ..s }
}

/// What a start request reports.
pub open spec fn start_outcome(s: SchedulerState) -> StartOutcome {
    if s.running {
        StartOutcome::AlreadyRunning
    } else {
        StartOutcome::Started
    }
}

/// The state after a stop request: not running and holding no task.
pub open spec fn after_stop(s: SchedulerState) -> SchedulerState {
    SchedulerState { running: false, has_task: if s.running { false } else { s.has_task } }
}

/// What a stop request reports: whether it stopped a running scheduler,
/// and if so whether a held task is to be aborted.
pub open spec fn stop_outcome(s: SchedulerState) -> StopOutcome {
    if s.running {
        StopOutcome::Stopped { abort_task: s.has_task }
    } else {
        StopOutcome::NotRunning
    }
}

impl SchedulerState {
    /// Whether the scheduler runs.
    pub open spec fn spec_running(&self) -> bool {
        self.running
    }

    /// Whether a task handle is held.
    pub open spec fn spec_has_task(&self) -> bool {
        self.has_task
    }

    /// A scheduler that does not run and holds no task.
    pub fn new() -> (r: SchedulerState)
        ensures
            !r.spec_running(),
            !r.spec_has_task(),
    {
        SchedulerState { running: false, has_task: false }
    }

    /// Whether the scheduler runs; the periodic task keeps going while it
    /// does.
    pub fn is_running(&self) -> (r: bool)
        ensures
            r == self.spec_running(),
    {
        self.running
    }

    /// A start request: a running scheduler is left alone; otherwise it
    /// starts and the caller spawns the periodic task.
    pub fn request_start(&mut self) -> (r: StartOutcome)
        ensures
            *final(self) == after_start(*old(self)),
            r == start_outcome(*old(self)),
    {
        if self.running {
            StartOutcome::AlreadyRunning
        } else {
            self.running = true;
            StartOutcome::Started
        }
    }

    /// The periodic task of a start has been spawned and its handle is held.
    pub fn task_spawned(&mut self)
        ensures
            final(self).spec_running() == old(self).spec_running(),
            final(self).spec_has_task(),
    {
        self.has_task = true;
    }

    /// A stop request: a scheduler that does not run is left alone;
    /// otherwise it stops, and the held task, if any, is to be aborted.
    pub fn request_stop(&mut self) -> (r: StopOutcome)
        ensures
            *final(self) == after_stop(*old(self)),
            r == stop_outcome(*old(self)),
    {
        if !self.running {
            StopOutcome::NotRunning
        } else {
            self.running = false;
            let abort = self.has_task;
            self.has_task = false;
            StopOutcome::Stopped { abort_task: abort }
        }
    }
}

/// A start leaves the scheduler running, and a second start reports that
/// it already runs and changes nothing; a stop after a start stops it and
/// leaves no task, and a second stop reports that it does not run and
/// changes nothing.
pub proof fn lemma_start_stop(s: SchedulerState)
    ensures
        after_start(s).spec_running(),
        start_outcome(after_start(s)) == StartOutcome::AlreadyRunning,
        after_start(after_start(s)) == after_start(s),
        !after_stop(after_start(s)).spec_running(),
        !after_stop(after_start(s)).spec_has_task(),
        stop_outcome(after_start(s)) matches StopOutcome::Stopped { .. },
        stop_outcome(after_stop(s)) == StopOutcome::NotRunning,
        after_stop(after_stop(s)) == after_stop(s),
{
}

/// The parameters of a start request.
pub struct StartSchedulerParams {
    pub interval_minutes: Option<u64>,
    pub blocks_count: Option<u64>,
}

/// The interval in minutes a start asks for: one when not given.
pub open spec fn requested_interval(p: StartSchedulerParams) -> u64 {
    match p.interval_minutes {
        Some(m) => m,
        None => 1,
    }
}

/// The number of newest blocks each run synchronises: 100 when not given.
pub open spec fn requested_blocks(p: StartSchedulerParams) -> u64 {
    match p.blocks_count {
        Some(b) => b,
        None => 100,
    }
}

impl StartSchedulerParams {
    /// The interval in minutes and the number of blocks per run.
    pub fn resolve(&self) -> (r: (u64, u64))
        ensures
            r.0 == requested_interval(*self),
            r.1 == requested_blocks(*self),
    {
        let m = match self.interval_minutes {
            Some(m) => m,
            None => 1,
        };
        let b = match self.blocks_count {
            Some(b) => b,
            None => 100,
        };
        (m, b)
    }
}

/// The period of the scheduler's task in seconds: sixty per minute.
pub fn interval_seconds(minutes: u64) -> (s: u64)
    requires
        minutes * 60 <= u64::MAX,
    ensures
        s == minutes * 60,
{
    minutes * 60
}

/// Whether the scheduler runs.
pub struct SchedulerStatus {
    pub running: bool,
}

/// The query of the scheduler-log table.
pub struct LogsParams {
    pub draw: i32,
    pub start: Option<usize>,
    pub length: Option<usize>,
}

/// The number of log rows a query asks for (25 when not given) and the
/// first row (0 when not given), as the index reads them (same bits).
pub open spec fn log_window_of(p: LogsParams) -> (i64, i64) {
    (
        match p.length {
            Some(l) => l as i64,
            None => 25,
        },
        match p.start {
            Some(s) => s as i64,
            None => 0,
        },
    )
}

impl LogsParams {
    /// The number of rows and the first row, for the index.
    pub fn window(&self) -> (r: (i64, i64))
        ensures
            r == log_window_of(*self),
    {
        let l: i64 = match self.length {
            Some(l) => l as i64,
            None => 25,
        };
        let s: i64 = match self.start {
            Some(s) => s as i64,
            None => 0,
        };
        (l, s)
    }
}

/// The scheduler-log table: `total` rows in all (as an index count, read
/// with the same bits), `logs` on this page.
pub fn logs_page<T>(draw: i32, total: i64, logs: Vec<T>) -> (r: DataTableResponse<T>)
    ensures
        r.draw == draw,
        r.records_total == total as usize,
        r.records_filtered == total as usize,
        r.data@ == logs@,
{
    let t = total as usize;
    DataTableResponse { draw, records_total: t, records_filtered: t, data: logs }
}

} // verus!
