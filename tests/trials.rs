use wave_bench::result::Status;
use wave_bench::trial::{settle, Execution, TrialLog};

fn run(outcomes: Vec<Execution>, elapsed: Vec<u64>) -> wave_bench::result::BenchResult {
    let mut log = TrialLog::new(outcomes.len());
    for (e, t) in outcomes.into_iter().zip(elapsed) {
        assert!(!log.is_complete());
        log.record(t, settle(e));
    }
    assert!(log.is_complete());
    log.finish(4096)
}

#[test]
fn settle_keeps_finished_outcome() {
    assert_eq!(settle(Execution::Finished(Ok(()))), Ok(()));
    assert_eq!(
        settle(Execution::Finished(Err("bad header".to_string()))),
        Err("bad header".to_string())
    );
}

#[test]
fn settle_marks_aborts_and_timeouts() {
    assert_eq!(
        settle(Execution::Aborted(Some("index out of bounds".to_string()))),
        Err("panic: index out of bounds".to_string())
    );
    assert_eq!(
        settle(Execution::Aborted(None)),
        Err("panic: unknown panic".to_string())
    );
    assert_eq!(settle(Execution::TimedOut), Err("timeout".to_string()));
}

#[test]
fn always_timing_out_reports_timeout() {
    let r = run(
        vec![Execution::TimedOut, Execution::TimedOut, Execution::TimedOut],
        vec![1_000_000_000, 1_000_000_000, 1_000_000_000],
    );
    assert_eq!(r.status, Status::Failure);
    assert_eq!(r.status.name(), "error");
    assert_eq!(r.error, Some("timeout".to_string()));
    assert!(r.times.is_empty());
    assert_eq!(r.stats.count, 0);
    assert_eq!(r.stats.total, 0);
    assert_eq!(r.peak_memory_kb, 4096);
}

#[test]
fn transient_failure_is_discarded() {
    let r = run(
        vec![
            Execution::Finished(Ok(())),
            Execution::Finished(Err("bad header".to_string())),
            Execution::Finished(Ok(())),
        ],
        vec![100, 200, 300],
    );
    assert_eq!(r.times, vec![100, 300]);
    assert_eq!(r.status, Status::Success);
    assert_eq!(r.status.name(), "ok");
    assert_eq!(r.error, None);
    assert_eq!(r.stats.total, 400);
    assert_eq!(r.stats.min, 100);
    assert_eq!(r.stats.max, 300);
}

#[test]
fn repeated_abort_reports_panic_payload() {
    let r = run(
        vec![
            Execution::Aborted(Some("corrupt block".to_string())),
            Execution::Aborted(Some("corrupt block".to_string())),
            Execution::Aborted(Some("corrupt block".to_string())),
        ],
        vec![5, 6, 7],
    );
    assert_eq!(r.status, Status::Failure);
    let e = r.error.unwrap();
    assert!(e.starts_with("panic: "));
    assert!(e.contains("corrupt block"));
}

#[test]
fn last_error_wins_when_all_fail() {
    let r = run(
        vec![
            Execution::Finished(Err("first".to_string())),
            Execution::TimedOut,
            Execution::Finished(Err("last".to_string())),
        ],
        vec![1, 2, 3],
    );
    assert_eq!(r.status, Status::Failure);
    assert_eq!(r.error, Some("last".to_string()));
}

#[test]
fn timings_count_successes_only() {
    let r = run(
        vec![
            Execution::Finished(Ok(())),
            Execution::TimedOut,
            Execution::Finished(Ok(())),
            Execution::Aborted(None),
            Execution::Finished(Ok(())),
        ],
        vec![10, 20, 30, 40, 50],
    );
    assert_eq!(r.times.len(), 3);
    assert!(r.times.len() <= 5);
    assert_eq!(r.times, vec![10, 30, 50]);
    assert_eq!(r.status, Status::Success);
    assert!(r.error.is_none());
}

#[test]
fn same_outcomes_give_same_status_whatever_the_timing() {
    let a = run(
        vec![Execution::TimedOut, Execution::Finished(Ok(()))],
        vec![7, 8],
    );
    let b = run(
        vec![Execution::TimedOut, Execution::Finished(Ok(()))],
        vec![900, 3],
    );
    assert_eq!(a.status, b.status);
    assert_eq!(a.error, b.error);
    assert_eq!(a.times.len(), b.times.len());
}

#[test]
fn log_counts_runs_and_budget() {
    let mut log = TrialLog::new(2);
    assert_eq!(log.reps(), 2);
    assert_eq!(log.runs(), 0);
    log.record(1, Ok(()));
    assert_eq!(log.runs(), 1);
    assert!(!log.is_complete());
    log.record(1, Ok(()));
    assert!(log.is_complete());
}

#[test]
fn identity_is_attached() {
    let r = run(vec![Execution::Finished(Ok(()))], vec![42]);
    assert_eq!(r.library, "");
    let r = r.with_identity("wellen", "vcd", "data/a.vcd", "full_parse");
    assert_eq!(r.library, "wellen");
    assert_eq!(r.format, "vcd");
    assert_eq!(r.file, "data/a.vcd");
    assert_eq!(r.operation, "full_parse");
    assert_eq!(r.times, vec![42]);
    assert_eq!(r.status, Status::Success);
}
