use rtshark_pool::merge::MergeStatus;
use rtshark_pool::monitor::memory_breached;
use rtshark_pool::pool::{rotation_error, Pool, PoolError, ReadAction};
use rtshark_pool::record::Record;

fn rec(ts_nanos: u64, frame_len: u64, token: u64) -> Record {
    Record { ts_nanos, frame_len, token }
}

const SEC: u64 = 1_000_000_000;

#[test]
fn breach_is_strictly_above_limit() {
    assert!(!memory_breached(Some(200_000), 200_000));
    assert!(memory_breached(Some(200_001), 200_000));
    assert!(!memory_breached(Some(0), 200_000));
}

#[test]
fn vanished_process_is_no_breach() {
    assert!(!memory_breached(None, 200_000));
}

#[test]
fn empty_pool_reads_pass_through() {
    let mut pool = Pool::new(16);
    assert_eq!(pool.read_step(false), ReadAction::ReadActive);
    assert_eq!(pool.read_step(false), ReadAction::ReadActive);
    assert_eq!(pool.queued_len(), 0);
}

#[test]
fn pending_replacement_merges_before_anything() {
    let mut pool = Pool::new(16);
    assert_eq!(pool.read_step(true), ReadAction::RunMerge);
}

#[test]
fn scenario_late_replacement_yields_one_timeline() {
    // The active worker emits frames of lengths [60, 60, 88] at 1.0 s,
    // 1.1 s and 1.2 s; the replacement, started late, emits [60, 88] at
    // 1.1 s and 1.2 s. Identity is found at the replacement's first
    // frame against the active worker's second; the active worker's
    // first frame is history from before the overlap window and is
    // delivered ahead of it; the 88-byte frame is never duplicated.
    let active = [rec(SEC, 60, 1), rec(SEC + SEC / 10, 60, 2), rec(SEC + SEC / 5, 88, 3)];
    let replacement = [rec(SEC + SEC / 10, 60, 10), rec(SEC + SEC / 5, 88, 11)];

    let mut pool = Pool::new(16);
    assert_eq!(pool.read_step(true), ReadAction::RunMerge);

    let mut merger = pool.begin_rotation();
    let mut next_active: usize = 0;
    let mut next_replacement: usize = 0;
    loop {
        match merger.current_status() {
            MergeStatus::NeedReplacement => {
                merger.offer_replacement(replacement[next_replacement]);
                next_replacement += 1;
            }
            MergeStatus::NeedActive => {
                merger.offer_active(active[next_active]);
                next_active += 1;
            }
            MergeStatus::Converged | MergeStatus::TimedOut => break,
        }
    }
    assert_eq!(merger.current_status(), MergeStatus::Converged);
    // The match was found against the active worker's second record.
    assert_eq!(next_active, 2);
    assert_eq!(next_replacement, 1);
    pool.complete_rotation(merger);

    // Drain the queue, then keep reading from the replacement stream.
    let mut delivered: Vec<Record> = Vec::new();
    loop {
        match pool.read_step(false) {
            ReadAction::Deliver(r) => delivered.push(r),
            ReadAction::ReadActive => {
                if next_replacement < replacement.len() {
                    delivered.push(replacement[next_replacement]);
                    next_replacement += 1;
                } else {
                    break;
                }
            }
            ReadAction::RunMerge => unreachable!(),
        }
    }

    let lens: Vec<u64> = delivered.iter().map(|r| r.frame_len).collect();
    assert_eq!(lens, vec![60, 60, 88]);
    let times: Vec<u64> = delivered.iter().map(|r| r.ts_nanos).collect();
    assert_eq!(times, vec![SEC, SEC + SEC / 10, SEC + SEC / 5]);
}

#[test]
fn completed_rotation_sorts_out_of_order_overlap() {
    // Non-monotone capture timestamps can leave the handoff buffer out
    // of order; the queue is put in timestamp order before anything is
    // released.
    let mut pool = Pool::new(16);
    let mut merger = pool.begin_rotation();
    merger.offer_replacement(rec(5 * SEC, 50, 10));
    merger.offer_active(rec(7 * SEC, 70, 1));
    // 7 s > 5 s: the replacement advances, 50@5s is queued.
    assert_eq!(merger.current_status(), MergeStatus::NeedReplacement);
    merger.offer_replacement(rec(2 * SEC, 20, 11));
    // 7 s > 2 s: the replacement advances again, 20@2s is queued.
    assert_eq!(merger.current_status(), MergeStatus::NeedReplacement);
    merger.offer_replacement(rec(7 * SEC, 70, 12));
    assert_eq!(merger.current_status(), MergeStatus::Converged);
    pool.complete_rotation(merger);

    assert_eq!(pool.queued_len(), 3);
    assert_eq!(pool.read_step(false), ReadAction::Deliver(rec(2 * SEC, 20, 11)));
    assert_eq!(pool.read_step(false), ReadAction::Deliver(rec(5 * SEC, 50, 10)));
    assert_eq!(pool.read_step(false), ReadAction::Deliver(rec(7 * SEC, 70, 12)));
    assert_eq!(pool.read_step(false), ReadAction::ReadActive);
}

#[test]
fn timed_out_rotation_leaves_pool_unchanged() {
    // No convergence within the bound: the attempt reports the merge
    // timeout, the queue stays empty and reads keep passing through to
    // the unchanged active worker; a later breach retries from scratch.
    let mut pool = Pool::new(1);
    let mut merger = pool.begin_rotation();
    merger.offer_replacement(rec(9 * SEC, 90, 10));
    merger.offer_active(rec(1 * SEC, 10, 1));
    merger.offer_active(rec(2 * SEC, 20, 2));
    assert_eq!(merger.current_status(), MergeStatus::TimedOut);
    assert_eq!(rotation_error(merger.current_status()), Some(PoolError::MergeTimeout));
    drop(merger);

    assert_eq!(pool.queued_len(), 0);
    assert_eq!(pool.read_step(false), ReadAction::ReadActive);

    // The retry starts over with the full attempt bound.
    let retry = pool.begin_rotation();
    assert_eq!(retry.current_status(), MergeStatus::NeedReplacement);
}

#[test]
fn interrupted_rotation_reports_read_failure() {
    let pool = Pool::new(4);
    let merger = pool.begin_rotation();
    // The replacement stream failed before offering anything: the
    // attempt is abandoned while the merge still asks for a record.
    assert_eq!(rotation_error(merger.current_status()), Some(PoolError::WorkerRead));
    assert_eq!(rotation_error(MergeStatus::NeedActive), Some(PoolError::WorkerRead));
    assert_eq!(rotation_error(MergeStatus::Converged), None);
}

#[test]
fn scenario_failed_factory_leaves_reads_undisturbed() {
    // A memory breach fires but the worker factory cannot produce a
    // live replacement: the failure is reported as a spawn error, no
    // rotation starts, and the consumer's reads flow on unchanged from
    // the active worker.
    let active = [rec(SEC, 60, 1), rec(2 * SEC, 61, 2)];
    let mut pool = Pool::new(16);

    let breached = memory_breached(Some(300_000), 200_000);
    assert!(breached);
    let factory_result: Option<()> = None;
    let mut reported: Option<PoolError> = None;
    if factory_result.is_none() {
        reported = Some(PoolError::WorkerSpawn);
    }
    assert_eq!(reported, Some(PoolError::WorkerSpawn));

    // No replacement is pending, so every read passes straight through.
    let mut delivered: Vec<Record> = Vec::new();
    for frame in active.iter() {
        match pool.read_step(false) {
            ReadAction::ReadActive => delivered.push(*frame),
            _ => unreachable!(),
        }
    }
    assert_eq!(delivered, vec![active[0], active[1]]);
}
