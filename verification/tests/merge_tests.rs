use rtshark_pool::merge::{MergeStatus, Merger};
use rtshark_pool::record::{records_match, Record};

fn rec(ts_nanos: u64, frame_len: u64, token: u64) -> Record {
    Record { ts_nanos, frame_len, token }
}

const SEC: u64 = 1_000_000_000;

#[test]
fn identity_ignores_token() {
    let a = rec(SEC, 60, 1);
    let b = rec(SEC, 60, 2);
    assert!(records_match(&a, &b));
}

#[test]
fn identity_needs_same_timestamp() {
    let a = rec(SEC, 60, 1);
    let b = rec(SEC + SEC / 10, 60, 2);
    assert!(!records_match(&a, &b));
}

#[test]
fn identity_needs_same_frame_len() {
    let a = rec(SEC, 60, 1);
    let b = rec(SEC, 88, 2);
    assert!(!records_match(&a, &b));
}

#[test]
fn fresh_merger_reads_replacement_first() {
    let m = Merger::new(4);
    assert_eq!(m.current_status(), MergeStatus::NeedReplacement);
}

#[test]
fn immediate_convergence_keeps_one_copy() {
    // Both streams open on the same physical frame: the buffer holds a
    // single copy of it.
    let mut m = Merger::new(4);
    m.offer_replacement(rec(SEC, 60, 10));
    assert_eq!(m.current_status(), MergeStatus::NeedActive);
    m.offer_active(rec(SEC, 60, 1));
    assert_eq!(m.current_status(), MergeStatus::Converged);
    let out = m.take_buffer();
    assert_eq!(out.len(), 1);
    assert_eq!(out[0], rec(SEC, 60, 10));
}

#[test]
fn one_overlapping_record_each_distinct_once() {
    // Active ran ahead by two frames before the replacement's first
    // frame; the only overlap is the matched pair. Every distinct frame
    // comes out exactly once.
    let mut m = Merger::new(8);
    m.offer_replacement(rec(3 * SEC, 99, 10));
    m.offer_active(rec(1 * SEC, 60, 1));
    assert_eq!(m.current_status(), MergeStatus::NeedActive);
    m.offer_active(rec(2 * SEC, 70, 2));
    assert_eq!(m.current_status(), MergeStatus::NeedActive);
    m.offer_active(rec(3 * SEC, 99, 3));
    assert_eq!(m.current_status(), MergeStatus::Converged);
    let out = m.take_buffer();
    assert_eq!(
        out,
        vec![rec(1 * SEC, 60, 1), rec(2 * SEC, 70, 2), rec(3 * SEC, 99, 10)]
    );
}

#[test]
fn divergence_size_is_sum_plus_one() {
    // The active side diverges for two records and the replacement side
    // for one before the streams converge: the buffer holds 2 + 1 + 1
    // records.
    let mut m = Merger::new(8);
    m.offer_replacement(rec(3 * SEC, 50, 10));
    m.offer_active(rec(1 * SEC, 60, 1));
    // 1 s <= 3 s: the active side advances.
    assert_eq!(m.current_status(), MergeStatus::NeedActive);
    m.offer_active(rec(2 * SEC, 61, 2));
    // 2 s <= 3 s: the active side advances again.
    assert_eq!(m.current_status(), MergeStatus::NeedActive);
    m.offer_active(rec(5 * SEC, 70, 3));
    // 5 s > 3 s: the replacement side advances.
    assert_eq!(m.current_status(), MergeStatus::NeedReplacement);
    m.offer_replacement(rec(5 * SEC, 70, 11));
    assert_eq!(m.current_status(), MergeStatus::Converged);
    let out = m.take_buffer();
    assert_eq!(out.len(), 2 + 1 + 1);
    assert_eq!(
        out,
        vec![
            rec(1 * SEC, 60, 1),
            rec(2 * SEC, 61, 2),
            rec(3 * SEC, 50, 10),
            rec(5 * SEC, 70, 11),
        ]
    );
}

#[test]
fn equal_timestamp_tie_advances_active() {
    // Two different frames can carry the same timestamp; the active
    // side is presumed behind and advances on the tie.
    let mut m = Merger::new(4);
    m.offer_replacement(rec(5 * SEC, 50, 10));
    m.offer_active(rec(5 * SEC, 60, 1));
    assert_eq!(m.current_status(), MergeStatus::NeedActive);
    m.offer_active(rec(5 * SEC, 50, 2));
    assert_eq!(m.current_status(), MergeStatus::Converged);
    let out = m.take_buffer();
    assert_eq!(out, vec![rec(5 * SEC, 60, 1), rec(5 * SEC, 50, 10)]);
}

#[test]
fn exhausted_attempt_bound_times_out() {
    // A bound of one allows a single advance; the next mismatch fails
    // the rotation attempt.
    let mut m = Merger::new(1);
    m.offer_replacement(rec(5 * SEC, 50, 10));
    m.offer_active(rec(1 * SEC, 60, 1));
    assert_eq!(m.current_status(), MergeStatus::NeedActive);
    m.offer_active(rec(2 * SEC, 61, 2));
    assert_eq!(m.current_status(), MergeStatus::TimedOut);
}

#[test]
fn zero_attempt_bound_times_out_on_first_mismatch() {
    let mut m = Merger::new(0);
    m.offer_replacement(rec(5 * SEC, 50, 10));
    m.offer_active(rec(1 * SEC, 60, 1));
    assert_eq!(m.current_status(), MergeStatus::TimedOut);
}

#[test]
fn zero_attempt_bound_still_converges_on_match() {
    let mut m = Merger::new(0);
    m.offer_replacement(rec(SEC, 60, 10));
    m.offer_active(rec(SEC, 60, 1));
    assert_eq!(m.current_status(), MergeStatus::Converged);
}
