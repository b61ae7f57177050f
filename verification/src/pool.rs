use vstd::prelude::*;
use crate::merge::{Merger, MergeStatus};
use crate::record::{Record, sorted_by_ts};
use crate::sort::sort_by_time;

verus! {

/// The failures the controller can surface to its consumer.
#[derive(Clone, Copy, PartialEq, Eq, Structural, Debug)]
pub enum PoolError {
    /// The worker factory could not produce a live worker.
    WorkerSpawn,
    /// A blocking read from a worker stream failed short of a clean
    /// end of stream.
    WorkerRead,
    /// The handoff found no convergence within the attempt bound.
    MergeTimeout,
}

/// What a single consumer read must do next, decided before any
/// blocking work: a pending replacement runs the merge first, then
/// queued merged records are served, and only an empty queue falls
/// through to a direct read on the active worker.
#[derive(Clone, Copy, PartialEq, Eq, Structural, Debug)]
pub enum ReadAction {
    /// A replacement worker is pending: run the handoff merge before
    /// anything is returned.
    RunMerge,
    /// Return this record, the earliest queued one.
    Deliver(Record),
    /// The queue is empty: issue a blocking read on the active worker
    /// and return its result unchanged.
    ReadActive,
}

/// The rotation controller's delivery state: the records a completed
/// handoff queued for the consumer, always sorted by timestamp, and the
/// configured bound on merge attempts. The worker processes themselves
/// live with the embedding application; the controller decides, the
/// application performs.
pub struct Pool {
    queued: Vec<Record>,
    attempt_bound: u64,
}

impl Pool {
    /// The records awaiting delivery, earliest first.
    pub closed spec fn queued(self) -> Seq<Record> {
        self.queued@
    }

    /// The configured bound on merge advances per rotation.
    pub closed spec fn attempt_bound(self) -> u64 {
        self.attempt_bound
    }

    /// Well-formedness: queued records are already in delivery order.
    pub closed spec fn inv(self) -> bool {
        sorted_by_ts(self.queued@)
    }

    pub fn new(attempt_bound: u64) -> (p: Pool)
        ensures
            p.inv(),
            p.queued() == Seq::<Record>::empty(),
            p.attempt_bound() == attempt_bound,
    {
        Pool { queued: Vec::new(), attempt_bound }
    }

    /// Starts the handoff for one rotation: a fresh merge over the
    /// configured attempt bound. The caller drives it by offering
    /// records until it converges or times out.
    pub fn begin_rotation(&self) -> (m: Merger)
        ensures
            m.inv(),
            m.status() == MergeStatus::NeedReplacement,
            m.buffer() == Seq::<Record>::empty(),
            m.offered_active() == Seq::<Record>::empty(),
            m.offered_replacement() == Seq::<Record>::empty(),
            m.attempts_left() == self.attempt_bound(),
    {
        Merger::new(self.attempt_bound)
    }

    /// Takes over the buffer of a converged handoff: everything the
    /// merge set aside joins the delivery queue, and the whole queue is
    /// put in timestamp order before anything is released. Nothing
    /// already queued is lost and nothing is added beyond the merge
    /// buffer.
    pub fn complete_rotation(&mut self, m: Merger)
        requires
            old(self).inv(),
            m.inv(),
            m.status() == MergeStatus::Converged,
        ensures
            final(self).inv(),
            final(self).attempt_bound() == old(self).attempt_bound(),
            final(self).queued().to_multiset() == old(self).queued().to_multiset().add(
                m.buffer().to_multiset()),
            final(self).queued().len() == old(self).queued().len() + m.buffer().len(),
            sorted_by_ts(final(self).queued()),
    {
        let ghost before = self.queued@;
        let ghost merged = m.buffer();
        let mut incoming = m.take_buffer();
        self.queued.append(&mut incoming);
        proof {
            vstd::seq_lib::lemma_multiset_commutative(before, merged);
            assert(self.queued@.to_multiset() == before.to_multiset().add(merged.to_multiset()));
        }
        sort_by_time(&mut self.queued);
        proof {
            vstd::seq_lib::to_multiset_len(self.queued@);
            vstd::seq_lib::to_multiset_len(before);
            vstd::seq_lib::to_multiset_len(merged);
        }
    }

    /// Decides one consumer read, in the order the controller promises:
    /// a pending replacement signal runs the merge before anything else;
    /// otherwise the earliest queued record is served; only an empty
    /// queue falls through to a direct read on the active worker.
    pub fn read_step(&mut self, replacement_pending: bool) -> (act: ReadAction)
        requires
            old(self).inv(),
        ensures
            final(self).inv(),
            final(self).attempt_bound() == old(self).attempt_bound(),
            replacement_pending ==> act == ReadAction::RunMerge && final(self).queued() == old(
                self).queued(),
            !replacement_pending && old(self).queued().len() > 0 ==> act == ReadAction::Deliver(
                old(self).queued()[0]) && final(self).queued() == old(self).queued().subrange(
                1, old(self).queued().len() as int),
            !replacement_pending && old(self).queued().len() == 0 ==> act
                == ReadAction::ReadActive && final(self).queued() == old(self).queued(),
    {
        if replacement_pending {
            ReadAction::RunMerge
        } else if self.queued.len() > 0 {
            let rec = self.queued.remove(0);
            proof {
                assert(self.queued@ =~= old(self).queued@.subrange(1,
                    old(self).queued@.len() as int));
            }
            ReadAction::Deliver(rec)
        } else {
            ReadAction::ReadActive
        }
    }

    /// The number of records still queued for delivery.
    pub fn queued_len(&self) -> (n: usize)
        ensures
            n == self.queued().len(),
    {
        self.queued.len()
    }
}

/// Rotation is transparent to the consumer: whatever two positions of
/// the delivery queue a consumer reaches by successive reads, the
/// earlier-served record does not carry a later timestamp — the merged
/// overlap is released as one nondecreasing timeline.
pub proof fn lemma_delivery_order(p: &Pool, i: int, j: int)
    requires
        p.inv(),
        0 <= i <= j < p.queued().len(),
    ensures
        p.queued()[i].ts_nanos <= p.queued()[j].ts_nanos,
{
}

/// The outcome a rotation attempt surfaces once its driver stops: a
/// converged handoff reports no error, one that exhausted the attempt
/// bound reports the merge timeout, and one abandoned while it still
/// asked for records was cut short by a failed read on the replacement
/// side. In every failing case the handoff is discarded whole — the
/// delivery queue only ever takes a converged buffer — so the active
/// worker flows on unchanged and a later breach retries from scratch.
pub fn rotation_error(status: MergeStatus) -> (e: Option<PoolError>)
    ensures
        status == MergeStatus::Converged ==> e is None,
        status == MergeStatus::TimedOut ==> e == Some(PoolError::MergeTimeout),
        status == MergeStatus::NeedActive || status == MergeStatus::NeedReplacement ==> e
            == Some(PoolError::WorkerRead),
{
    match status {
        MergeStatus::Converged => None,
        MergeStatus::TimedOut => Some(PoolError::MergeTimeout),
        MergeStatus::NeedActive => Some(PoolError::WorkerRead),
        MergeStatus::NeedReplacement => Some(PoolError::WorkerRead),
    }
}

} // verus!
