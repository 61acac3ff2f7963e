use bitcoin_dashboard::paging::DataTableResponse;
use bitcoin_dashboard::scheduler::{
    interval_seconds, logs_page, LogsParams, SchedulerState, StartOutcome, StartSchedulerParams,
    StopOutcome,
};

#[test]
fn new_scheduler_is_idle() {
    let s = SchedulerState::new();
    assert!(!s.is_running());
}

#[test]
fn start_then_stop() {
    let mut s = SchedulerState::new();
    assert_eq!(s.request_start(), StartOutcome::Started);
    s.task_spawned();
    assert!(s.is_running());
    assert_eq!(s.request_start(), StartOutcome::AlreadyRunning);
    assert!(s.is_running());
    assert_eq!(s.request_stop(), StopOutcome::Stopped { abort_task: true });
    assert!(!s.is_running());
    assert_eq!(s.request_stop(), StopOutcome::NotRunning);
}

#[test]
fn stop_without_task() {
    let mut s = SchedulerState::new();
    s.request_start();
    assert_eq!(s.request_stop(), StopOutcome::Stopped { abort_task: false });
}

#[test]
fn start_parameters() {
    let p = StartSchedulerParams { interval_minutes: None, blocks_count: None };
    assert_eq!(p.resolve(), (1, 100));
    let q = StartSchedulerParams { interval_minutes: Some(5), blocks_count: Some(20) };
    assert_eq!(q.resolve(), (5, 20));
    assert_eq!(interval_seconds(1), 60);
    assert_eq!(interval_seconds(5), 300);
    assert_eq!(interval_seconds(0), 0);
}

#[test]
fn log_windows() {
    let p = LogsParams { draw: 1, start: None, length: None };
    assert_eq!(p.window(), (25, 0));
    let q = LogsParams { draw: 1, start: Some(40), length: Some(10) };
    assert_eq!(q.window(), (10, 40));
}

#[test]
fn log_page_counts_total() {
    let r: DataTableResponse<&str> = logs_page(4, 57, vec!["a", "b"]);
    assert_eq!(r.draw, 4);
    assert_eq!(r.records_total, 57);
    assert_eq!(r.records_filtered, 57);
    assert_eq!(r.data.len(), 2);
}
