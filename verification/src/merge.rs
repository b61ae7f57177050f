use vstd::prelude::*;
use vstd::multiset::Multiset;
use crate::record::{Record, spec_records_match, records_match, sorted_by_ts, all_at_or_before};

verus! {

broadcast use vstd::seq_lib::group_to_multiset_ensures;

/// What the merge procedure needs next. The embedding application reads
/// the state after every offered record and performs the action: a
/// blocking read on the named stream, or the hand-over on convergence,
/// or the abort on timeout.
#[derive(Clone, Copy, PartialEq, Eq, Structural, Debug)]
pub enum MergeStatus {
    /// Read one record from the replacement stream and offer it.
    NeedReplacement,
    /// Read one record from the active stream and offer it.
    NeedActive,
    /// The two streams converged on a matching frame; the accumulated
    /// buffer is complete and the replacement becomes the active worker.
    Converged,
    /// No matching frame was found within the attempt bound; the
    /// rotation attempt failed and the buffer must be discarded.
    TimedOut,
}

/// The handoff reconciliation: fed one record at a time from the two
/// temporally overlapping streams, it accumulates a buffer that holds
/// every distinct offered record exactly once, advancing whichever
/// stream's held record lies earlier in time, until the two streams
/// converge on a record that passes the identity test.
pub struct Merger {
    buffer: Vec<Record>,
    pending_active: Option<Record>,
    pending_replacement: Option<Record>,
    attempts_left: u64,
    status: MergeStatus,
    offered_active: Ghost<Seq<Record>>,
    offered_replacement: Ghost<Seq<Record>>,
}

proof fn lemma_add_count(m1: Multiset<Record>, m2: Multiset<Record>, v: Record)
    ensures
        m1.add(m2).count(v) == m1.count(v) + m2.count(v),
{
}

proof fn lemma_insert_count(m: Multiset<Record>, x: Record, v: Record)
    ensures
        m.insert(x).count(v) == m.count(v) + if v == x {
            1nat
        } else {
            0nat
        },
{
    assert(m.insert(x).count(v) == m.count(v) + Multiset::<Record>::singleton(x).count(v));
}

proof fn lemma_sorted_push(s: Seq<Record>, x: Record)
    requires
        sorted_by_ts(s.push(x)),
    ensures
        sorted_by_ts(s),
        all_at_or_before(s, x),
{
    assert forall|i: int, j: int| 0 <= i <= j < s.len() implies #[trigger] s[i].ts_nanos
        <= #[trigger] s[j].ts_nanos by {
        assert(s.push(x)[i] == s[i]);
        assert(s.push(x)[j] == s[j]);
        assert(s.push(x)[i].ts_nanos <= s.push(x)[j].ts_nanos);
    }
    assert forall|i: int| 0 <= i < s.len() implies #[trigger] s[i].ts_nanos <= x.ts_nanos by {
        assert(s.push(x)[i] == s[i]);
        assert(s.push(x)[s.len() as int] == x);
        assert(s.push(x)[i].ts_nanos <= s.push(x)[s.len() as int].ts_nanos);
    }
}

proof fn lemma_push_stays_sorted(s: Seq<Record>, x: Record)
    requires
        sorted_by_ts(s),
        all_at_or_before(s, x),
    ensures
        sorted_by_ts(s.push(x)),
{
    let t = s.push(x);
    assert forall|i: int, j: int| 0 <= i <= j < t.len() implies #[trigger] t[i].ts_nanos
        <= #[trigger] t[j].ts_nanos by {
        if j < s.len() {
            assert(t[i] == s[i]);
            assert(t[j] == s[j]);
        } else {
            assert(t[j] == x);
            if i < s.len() {
                assert(t[i] == s[i]);
            }
        }
    }
}

proof fn lemma_push_keeps_bound(s: Seq<Record>, x: Record, y: Record)
    requires
        all_at_or_before(s, y),
        x.ts_nanos <= y.ts_nanos,
    ensures
        all_at_or_before(s.push(x), y),
{
    let t = s.push(x);
    assert forall|i: int| 0 <= i < t.len() implies #[trigger] t[i].ts_nanos <= y.ts_nanos by {
        if i < s.len() {
            assert(t[i] == s[i]);
        } else {
            assert(t[i] == x);
        }
    }
}

proof fn lemma_bound_weaken(s: Seq<Record>, x: Record, y: Record)
    requires
        all_at_or_before(s, x),
        x.ts_nanos <= y.ts_nanos,
    ensures
        all_at_or_before(s, y),
{
    assert forall|i: int| 0 <= i < s.len() implies #[trigger] s[i].ts_nanos <= y.ts_nanos by {
        assert(s[i].ts_nanos <= x.ts_nanos);
    }
}

proof fn lemma_push_count(s: Seq<Record>, x: Record, v: Record)
    ensures
        s.push(x).to_multiset().count(v) == s.to_multiset().count(v) + if v == x {
            1nat
        } else {
            0nat
        },
{
    vstd::seq_lib::to_multiset_build(s, x);
    assert(s.push(x).to_multiset().count(v) == s.to_multiset().insert(x).count(v));
    lemma_insert_count(s.to_multiset(), x, v);
}

impl Merger {
    /// All records offered from the active stream so far, oldest first.
    pub closed spec fn offered_active(self) -> Seq<Record> {
        self.offered_active@
    }

    /// All records offered from the replacement stream so far, oldest first.
    pub closed spec fn offered_replacement(self) -> Seq<Record> {
        self.offered_replacement@
    }

    /// The accumulated merge buffer, in the order records were set aside.
    pub closed spec fn buffer(self) -> Seq<Record> {
        self.buffer@
    }

    /// The record read from the active stream and not yet placed.
    pub closed spec fn pending_active(self) -> Option<Record> {
        self.pending_active
    }

    /// The record read from the replacement stream and not yet placed.
    pub closed spec fn pending_replacement(self) -> Option<Record> {
        self.pending_replacement
    }

    /// How many more advances may happen before the merge gives up.
    pub closed spec fn attempts_left(self) -> nat {
        self.attempts_left as nat
    }

    pub closed spec fn status(self) -> MergeStatus {
        self.status
    }

    /// The records currently held aside, as a multiset.
    closed spec fn pending_ms(self) -> Multiset<Record> {
        let held = Multiset::<Record>::empty();
        let held = match self.pending_active {
            Some(a) => held.insert(a),
            None => held,
        };
        match self.pending_replacement {
            Some(r) => held.insert(r),
            None => held,
        }
    }

    /// Streams that keep their promise of nondecreasing timestamps are
    /// merged with no reordering: the buffer is accumulated already in
    /// timestamp order, each set-aside record bounded by whatever is
    /// still held or about to be read.
    closed spec fn ordered(self) -> bool {
        (sorted_by_ts(self.offered_active@) && sorted_by_ts(self.offered_replacement@)) ==> {
            &&& (self.status == MergeStatus::NeedReplacement || self.status
                == MergeStatus::NeedActive || self.status == MergeStatus::Converged)
                ==> sorted_by_ts(self.buffer@)
            &&& (self.status == MergeStatus::NeedReplacement || self.status
                == MergeStatus::NeedActive) ==> {
                &&& (self.pending_active matches Some(a) ==> all_at_or_before(self.buffer@, a))
                &&& (self.pending_replacement matches Some(r) ==> all_at_or_before(
                    self.buffer@, r))
                &&& (self.status == MergeStatus::NeedReplacement && self.pending_active is Some
                    ==> self.offered_replacement@.len() >= 1 && all_at_or_before(self.buffer@,
                    self.offered_replacement@.last()))
                &&& (self.status == MergeStatus::NeedActive ==> (self.offered_active@.len() == 0
                    ==> self.buffer@.len() == 0) && (self.offered_active@.len() >= 1
                    ==> all_at_or_before(self.buffer@, self.offered_active@.last())))
            }
        }
    }

    /// Well-formedness. While the merge is in progress, the buffer and
    /// the held records together account for every offered record
    /// exactly once, and a held record is the one its stream offered
    /// last; at convergence the buffer accounts for all offered records
    /// except the matched active-side one, whose replacement-side copy
    /// stands in the buffer last.
    pub closed spec fn inv(self) -> bool {
        &&& self.status == MergeStatus::NeedReplacement && self.pending_active is None ==> {
            &&& self.buffer@.len() == 0
            &&& self.offered_active@.len() == 0
            &&& self.offered_replacement@.len() == 0
        }
        &&& self.ordered()
        &&& match self.status {
            MergeStatus::NeedReplacement => self.pending_replacement is None,
            MergeStatus::NeedActive => self.pending_active is None
                && self.pending_replacement is Some,
            MergeStatus::Converged => true,
            MergeStatus::TimedOut => true,
        }
        &&& (self.status == MergeStatus::NeedReplacement || self.status
            == MergeStatus::NeedActive) ==> {
            &&& (self.pending_active matches Some(a) ==> self.offered_active@.len() >= 1 && a
                == self.offered_active@.last())
            &&& (self.pending_replacement matches Some(r) ==> self.offered_replacement@.len() >= 1
                && r == self.offered_replacement@.last())
            &&& self.buffer@.to_multiset().add(self.pending_ms())
                == self.offered_active@.to_multiset().add(
                self.offered_replacement@.to_multiset())
        }
        &&& self.status == MergeStatus::Converged ==> {
            &&& self.offered_active@.len() >= 1
            &&& self.offered_replacement@.len() >= 1
            &&& spec_records_match(self.offered_active@.last(), self.offered_replacement@.last())
            &&& self.buffer@.len() >= 1
            &&& self.buffer@.last() == self.offered_replacement@.last()
            &&& self.buffer@.to_multiset().insert(self.offered_active@.last())
                == self.offered_active@.to_multiset().add(
                self.offered_replacement@.to_multiset())
        }
    }

    /// Starts a handoff. The first record is read from the replacement
    /// stream, so that is what the fresh merger asks for.
    pub fn new(attempt_bound: u64) -> (m: Merger)
        ensures
            m.inv(),
            m.status() == MergeStatus::NeedReplacement,
            m.buffer() == Seq::<Record>::empty(),
            m.offered_active() == Seq::<Record>::empty(),
            m.offered_replacement() == Seq::<Record>::empty(),
            m.pending_active() is None,
            m.attempts_left() == attempt_bound,
    {
        let m = Merger {
            buffer: Vec::new(),
            pending_active: None,
            pending_replacement: None,
            attempts_left: attempt_bound,
            status: MergeStatus::NeedReplacement,
            offered_active: Ghost(Seq::empty()),
            offered_replacement: Ghost(Seq::empty()),
        };
        proof {
            assert(m.buffer@.to_multiset().add(m.pending_ms()) =~= m.offered_active@.to_multiset()
                .add(m.offered_replacement@.to_multiset()));
        }
        m
    }

    /// The action the application must perform next.
    pub fn current_status(&self) -> (s: MergeStatus)
        ensures
            s == self.status(),
    {
        self.status
    }

    /// Offers the record just read from the replacement stream. If no
    /// active-side record is held yet, the merger stores it and asks for
    /// one; otherwise the identity test runs between the held active
    /// record and this one, and the earlier of the two is set aside.
    pub fn offer_replacement(&mut self, rec: Record)
        requires
            old(self).inv(),
            old(self).status() == MergeStatus::NeedReplacement,
        ensures
            final(self).inv(),
            final(self).offered_replacement() == old(self).offered_replacement().push(rec),
            final(self).offered_active() == old(self).offered_active(),
            (old(self).pending_active() is None) ==> {
                &&& final(self).status() == MergeStatus::NeedActive
                &&& final(self).buffer() == old(self).buffer()
                &&& final(self).pending_replacement() == Some(rec)
                &&& final(self).attempts_left() == old(self).attempts_left()
            },
            old(self).pending_active() matches Some(a) ==> {
                &&& spec_records_match(a, rec) ==> {
                    &&& final(self).status() == MergeStatus::Converged
                    &&& final(self).buffer() == old(self).buffer().push(rec)
                }
                &&& !spec_records_match(a, rec) && old(self).attempts_left() == 0 ==> {
                    &&& final(self).status() == MergeStatus::TimedOut
                    &&& final(self).buffer() == old(self).buffer()
                }
                &&& !spec_records_match(a, rec) && old(self).attempts_left() > 0 && a.ts_nanos
                    <= rec.ts_nanos ==> {
                    &&& final(self).status() == MergeStatus::NeedActive
                    &&& final(self).buffer() == old(self).buffer().push(a)
                    &&& final(self).pending_replacement() == Some(rec)
                    &&& final(self).attempts_left() == old(self).attempts_left() - 1
                }
                &&& !spec_records_match(a, rec) && old(self).attempts_left() > 0 && a.ts_nanos
                    > rec.ts_nanos ==> {
                    &&& final(self).status() == MergeStatus::NeedReplacement
                    &&& final(self).buffer() == old(self).buffer().push(rec)
                    &&& final(self).pending_active() == Some(a)
                    &&& final(self).attempts_left() == old(self).attempts_left() - 1
                }
            },
    {
        self.offered_replacement = Ghost(self.offered_replacement@.push(rec));
        let ghost b0 = old(self).buffer@;
        let ghost a0 = old(self).offered_active@;
        let ghost r0 = old(self).offered_replacement@;
        let ghost p0 = old(self).pending_ms();
        match self.pending_active {
            None => {
                self.pending_replacement = Some(rec);
                self.status = MergeStatus::NeedActive;
                proof {
                    let lhs = self.buffer@.to_multiset().add(self.pending_ms());
                    let rhs = self.offered_active@.to_multiset().add(
                        self.offered_replacement@.to_multiset());
                    assert(p0 == Multiset::<Record>::empty());
                    assert(self.pending_ms() == Multiset::<Record>::empty().insert(rec));
                    assert forall|v: Record| lhs.count(v) == rhs.count(v) by {
                        assert(b0.to_multiset().add(p0).count(v) == a0.to_multiset().add(
                            r0.to_multiset()).count(v));
                        lemma_add_count(b0.to_multiset(), p0, v);
                        lemma_add_count(a0.to_multiset(), r0.to_multiset(), v);
                        lemma_add_count(self.buffer@.to_multiset(), self.pending_ms(), v);
                        lemma_add_count(self.offered_active@.to_multiset(),
                            self.offered_replacement@.to_multiset(), v);
                        lemma_push_count(r0, rec, v);
                        lemma_insert_count(Multiset::<Record>::empty(), rec, v);
                    }
                    assert(lhs =~= rhs);
                }
            },
            Some(a) => {
                if records_match(&a, &rec) {
                    self.buffer.push(rec);
                    self.pending_active = None;
                    self.status = MergeStatus::Converged;
                    proof {
                        let lhs = self.buffer@.to_multiset().insert(self.offered_active@.last());
                        let rhs = self.offered_active@.to_multiset().add(
                            self.offered_replacement@.to_multiset());
                        assert(p0 == Multiset::<Record>::empty().insert(a));
                        assert forall|v: Record| lhs.count(v) == rhs.count(v) by {
                            assert(b0.to_multiset().add(p0).count(v) == a0.to_multiset().add(
                                r0.to_multiset()).count(v));
                            lemma_add_count(b0.to_multiset(), p0, v);
                            lemma_add_count(a0.to_multiset(), r0.to_multiset(), v);
                            lemma_add_count(self.offered_active@.to_multiset(),
                                self.offered_replacement@.to_multiset(), v);
                            lemma_push_count(b0, rec, v);
                            lemma_push_count(r0, rec, v);
                            lemma_insert_count(Multiset::<Record>::empty(), a, v);
                            lemma_insert_count(self.buffer@.to_multiset(),
                                self.offered_active@.last(), v);
                        }
                        assert(lhs =~= rhs);
                        if sorted_by_ts(a0) && sorted_by_ts(self.offered_replacement@) {
                            lemma_sorted_push(r0, rec);
                            assert(r0[r0.len() - 1].ts_nanos <= rec.ts_nanos);
                            lemma_bound_weaken(b0, r0.last(), rec);
                            lemma_push_stays_sorted(b0, rec);
                        }
                    }
                } else if self.attempts_left == 0 {
                    self.status = MergeStatus::TimedOut;
                } else if a.ts_nanos <= rec.ts_nanos {
                    self.buffer.push(a);
                    self.pending_active = None;
                    self.pending_replacement = Some(rec);
                    self.status = MergeStatus::NeedActive;
                    self.attempts_left = self.attempts_left - 1;
                    proof {
                        let lhs = self.buffer@.to_multiset().add(self.pending_ms());
                        let rhs = self.offered_active@.to_multiset().add(
                            self.offered_replacement@.to_multiset());
                        assert(p0 == Multiset::<Record>::empty().insert(a));
                        assert(self.pending_ms() == Multiset::<Record>::empty().insert(rec));
                        assert forall|v: Record| lhs.count(v) == rhs.count(v) by {
                            assert(b0.to_multiset().add(p0).count(v) == a0.to_multiset().add(
                                r0.to_multiset()).count(v));
                            lemma_add_count(b0.to_multiset(), p0, v);
                            lemma_add_count(a0.to_multiset(), r0.to_multiset(), v);
                            lemma_add_count(self.buffer@.to_multiset(), self.pending_ms(), v);
                            lemma_add_count(self.offered_active@.to_multiset(),
                                self.offered_replacement@.to_multiset(), v);
                            lemma_push_count(b0, a, v);
                            lemma_push_count(r0, rec, v);
                            lemma_insert_count(Multiset::<Record>::empty(), a, v);
                            lemma_insert_count(Multiset::<Record>::empty(), rec, v);
                        }
                        assert(lhs =~= rhs);
                        if sorted_by_ts(a0) && sorted_by_ts(self.offered_replacement@) {
                            lemma_sorted_push(r0, rec);
                            assert(r0[r0.len() - 1].ts_nanos <= rec.ts_nanos);
                            lemma_push_stays_sorted(b0, a);
                            lemma_bound_weaken(b0, r0.last(), rec);
                            lemma_push_keeps_bound(b0, a, rec);
                            lemma_push_keeps_bound(b0, a, a);
                        }
                    }
                } else {
                    self.buffer.push(rec);
                    self.status = MergeStatus::NeedReplacement;
                    self.attempts_left = self.attempts_left - 1;
                    proof {
                        let lhs = self.buffer@.to_multiset().add(self.pending_ms());
                        let rhs = self.offered_active@.to_multiset().add(
                            self.offered_replacement@.to_multiset());
                        assert(p0 == Multiset::<Record>::empty().insert(a));
                        assert(self.pending_ms() == Multiset::<Record>::empty().insert(a));
                        assert forall|v: Record| lhs.count(v) == rhs.count(v) by {
                            assert(b0.to_multiset().add(p0).count(v) == a0.to_multiset().add(
                                r0.to_multiset()).count(v));
                            lemma_add_count(b0.to_multiset(), p0, v);
                            lemma_add_count(a0.to_multiset(), r0.to_multiset(), v);
                            lemma_add_count(self.buffer@.to_multiset(), self.pending_ms(), v);
                            lemma_add_count(self.offered_active@.to_multiset(),
                                self.offered_replacement@.to_multiset(), v);
                            lemma_push_count(b0, rec, v);
                            lemma_push_count(r0, rec, v);
                            lemma_insert_count(Multiset::<Record>::empty(), a, v);
                        }
                        assert(lhs =~= rhs);
                        if sorted_by_ts(a0) && sorted_by_ts(self.offered_replacement@) {
                            lemma_sorted_push(r0, rec);
                            assert(r0[r0.len() - 1].ts_nanos <= rec.ts_nanos);
                            lemma_bound_weaken(b0, r0.last(), rec);
                            lemma_push_stays_sorted(b0, rec);
                            lemma_push_keeps_bound(b0, rec, a);
                            lemma_push_keeps_bound(b0, rec, rec);
                        }
                    }
                }
            },
        }
    }

    /// Offers the record just read from the active stream. The identity
    /// test runs between it and the held replacement record, and the
    /// earlier of the two is set aside.
    pub fn offer_active(&mut self, rec: Record)
        requires
            old(self).inv(),
            old(self).status() == MergeStatus::NeedActive,
        ensures
            final(self).inv(),
            final(self).offered_active() == old(self).offered_active().push(rec),
            final(self).offered_replacement() == old(self).offered_replacement(),
            old(self).pending_replacement() matches Some(r) ==> {
                &&& spec_records_match(rec, r) ==> {
                    &&& final(self).status() == MergeStatus::Converged
                    &&& final(self).buffer() == old(self).buffer().push(r)
                }
                &&& !spec_records_match(rec, r) && old(self).attempts_left() == 0 ==> {
                    &&& final(self).status() == MergeStatus::TimedOut
                    &&& final(self).buffer() == old(self).buffer()
                }
                &&& !spec_records_match(rec, r) && old(self).attempts_left() > 0 && rec.ts_nanos
                    <= r.ts_nanos ==> {
                    &&& final(self).status() == MergeStatus::NeedActive
                    &&& final(self).buffer() == old(self).buffer().push(rec)
                    &&& final(self).pending_replacement() == Some(r)
                    &&& final(self).attempts_left() == old(self).attempts_left() - 1
                }
                &&& !spec_records_match(rec, r) && old(self).attempts_left() > 0 && rec.ts_nanos
                    > r.ts_nanos ==> {
                    &&& final(self).status() == MergeStatus::NeedReplacement
                    &&& final(self).buffer() == old(self).buffer().push(r)
                    &&& final(self).pending_active() == Some(rec)
                    &&& final(self).attempts_left() == old(self).attempts_left() - 1
                }
            },
    {
        self.offered_active = Ghost(self.offered_active@.push(rec));
        let ghost b0 = old(self).buffer@;
        let ghost a0 = old(self).offered_active@;
        let ghost r0 = old(self).offered_replacement@;
        let ghost p0 = old(self).pending_ms();
        let r = self.pending_replacement.unwrap();
        if records_match(&rec, &r) {
            self.buffer.push(r);
            self.pending_replacement = None;
            self.status = MergeStatus::Converged;
            proof {
                let lhs = self.buffer@.to_multiset().insert(self.offered_active@.last());
                let rhs = self.offered_active@.to_multiset().add(
                    self.offered_replacement@.to_multiset());
                assert(p0 == Multiset::<Record>::empty().insert(r));
                assert(self.offered_active@.last() == rec);
                assert forall|v: Record| lhs.count(v) == rhs.count(v) by {
                    assert(b0.to_multiset().add(p0).count(v) == a0.to_multiset().add(
                        r0.to_multiset()).count(v));
                    lemma_add_count(b0.to_multiset(), p0, v);
                    lemma_add_count(a0.to_multiset(), r0.to_multiset(), v);
                    lemma_add_count(self.offered_active@.to_multiset(),
                        self.offered_replacement@.to_multiset(), v);
                    lemma_push_count(b0, r, v);
                    lemma_push_count(a0, rec, v);
                    lemma_insert_count(Multiset::<Record>::empty(), r, v);
                    lemma_insert_count(self.buffer@.to_multiset(), self.offered_active@.last(),
                        v);
                }
                assert(lhs =~= rhs);
                if sorted_by_ts(self.offered_active@) && sorted_by_ts(r0) {
                    lemma_sorted_push(a0, rec);
                    lemma_push_stays_sorted(b0, r);
                }
            }
        } else if self.attempts_left == 0 {
            self.status = MergeStatus::TimedOut;
        } else if rec.ts_nanos <= r.ts_nanos {
            self.buffer.push(rec);
            self.attempts_left = self.attempts_left - 1;
            proof {
                let lhs = self.buffer@.to_multiset().add(self.pending_ms());
                let rhs = self.offered_active@.to_multiset().add(
                    self.offered_replacement@.to_multiset());
                assert(p0 == Multiset::<Record>::empty().insert(r));
                assert(self.pending_ms() == Multiset::<Record>::empty().insert(r));
                assert forall|v: Record| lhs.count(v) == rhs.count(v) by {
                    assert(b0.to_multiset().add(p0).count(v) == a0.to_multiset().add(
                        r0.to_multiset()).count(v));
                    lemma_add_count(b0.to_multiset(), p0, v);
                    lemma_add_count(a0.to_multiset(), r0.to_multiset(), v);
                    lemma_add_count(self.buffer@.to_multiset(), self.pending_ms(), v);
                    lemma_add_count(self.offered_active@.to_multiset(),
                        self.offered_replacement@.to_multiset(), v);
                    lemma_push_count(b0, rec, v);
                    lemma_push_count(a0, rec, v);
                    lemma_insert_count(Multiset::<Record>::empty(), r, v);
                }
                assert(lhs =~= rhs);
                if sorted_by_ts(self.offered_active@) && sorted_by_ts(r0) {
                    lemma_sorted_push(a0, rec);
                    if a0.len() == 0 {
                        assert(b0.len() == 0);
                    } else {
                        assert(a0[a0.len() - 1].ts_nanos <= rec.ts_nanos);
                        lemma_bound_weaken(b0, a0.last(), rec);
                    }
                    assert(all_at_or_before(b0, rec));
                    lemma_push_stays_sorted(b0, rec);
                    lemma_push_keeps_bound(b0, rec, r);
                    lemma_push_keeps_bound(b0, rec, rec);
                }
            }
        } else {
            self.buffer.push(r);
            self.pending_active = Some(rec);
            self.pending_replacement = None;
            self.status = MergeStatus::NeedReplacement;
            self.attempts_left = self.attempts_left - 1;
            proof {
                let lhs = self.buffer@.to_multiset().add(self.pending_ms());
                let rhs = self.offered_active@.to_multiset().add(
                    self.offered_replacement@.to_multiset());
                assert(p0 == Multiset::<Record>::empty().insert(r));
                assert(self.pending_ms() == Multiset::<Record>::empty().insert(rec));
                assert(self.offered_active@.last() == rec);
                assert forall|v: Record| lhs.count(v) == rhs.count(v) by {
                    assert(b0.to_multiset().add(p0).count(v) == a0.to_multiset().add(
                        r0.to_multiset()).count(v));
                    lemma_add_count(b0.to_multiset(), p0, v);
                    lemma_add_count(a0.to_multiset(), r0.to_multiset(), v);
                    lemma_add_count(self.buffer@.to_multiset(), self.pending_ms(), v);
                    lemma_add_count(self.offered_active@.to_multiset(),
                        self.offered_replacement@.to_multiset(), v);
                    lemma_push_count(b0, r, v);
                    lemma_push_count(a0, rec, v);
                    lemma_insert_count(Multiset::<Record>::empty(), r, v);
                    lemma_insert_count(Multiset::<Record>::empty(), rec, v);
                }
                assert(lhs =~= rhs);
                if sorted_by_ts(self.offered_active@) && sorted_by_ts(r0) {
                    lemma_sorted_push(a0, rec);
                    lemma_push_stays_sorted(b0, r);
                    lemma_bound_weaken(b0, r, rec);
                    lemma_push_keeps_bound(b0, r, rec);
                    lemma_push_keeps_bound(b0, r, r);
                }
            }
        }
    }

    /// Hands the accumulated buffer over once the streams converged.
    pub fn take_buffer(self) -> (out: Vec<Record>)
        requires
            self.inv(),
            self.status() == MergeStatus::Converged,
        ensures
            out@ == self.buffer(),
    {
        self.buffer
    }
}

/// No record offered from either stream during the handoff is lost, and
/// none is delivered twice: at convergence the merge buffer holds every
/// offered record exactly once, except that of the matched pair — the
/// last record of each stream, equal under the identity test — only the
/// replacement-side copy stands, at the end of the buffer.
pub proof fn lemma_converged_exact(m: &Merger)
    requires
        m.inv(),
        m.status() == MergeStatus::Converged,
    ensures
        m.offered_active().len() >= 1,
        m.offered_replacement().len() >= 1,
        spec_records_match(m.offered_active().last(), m.offered_replacement().last()),
        m.buffer().len() >= 1,
        m.buffer().last() == m.offered_replacement().last(),
        m.buffer().to_multiset().insert(m.offered_active().last()) == m.offered_active()
            .to_multiset().add(m.offered_replacement().to_multiset()),
{
}

/// The same accounting, record by record: after convergence any record
/// stands in the buffer as often as the two streams offered it, except
/// the matched active-side record, which lost its one duplicate. In
/// particular, when the streams overlapped in exactly one record — the
/// matched pair — every distinct record offered stands in the buffer
/// exactly once.
pub proof fn lemma_converged_counts(m: &Merger, x: Record)
    requires
        m.inv(),
        m.status() == MergeStatus::Converged,
    ensures
        m.buffer().to_multiset().count(x) + (if x == m.offered_active().last() {
            1nat
        } else {
            0nat
        }) == m.offered_active().to_multiset().count(x)
            + m.offered_replacement().to_multiset().count(x),
{
    lemma_converged_exact(m);
    lemma_insert_count(m.buffer().to_multiset(), m.offered_active().last(), x);
    lemma_add_count(m.offered_active().to_multiset(), m.offered_replacement().to_multiset(), x);
}

/// If the streams diverged for `k_active` records on the active side and
/// `k_replacement` records on the replacement side before converging,
/// the merge buffer holds exactly `k_active + k_replacement + 1`
/// records: each diverging record once, plus the one matched copy.
pub proof fn lemma_converged_size(m: &Merger)
    requires
        m.inv(),
        m.status() == MergeStatus::Converged,
    ensures
        m.buffer().len() == m.offered_active().len() + m.offered_replacement().len() - 1,
{
    lemma_converged_exact(m);
    let with_match = m.buffer().to_multiset().insert(m.offered_active().last());
    assert(with_match.len() == m.buffer().to_multiset().len() + 1);
    assert(m.buffer().to_multiset().len() == m.buffer().len());
    assert(m.offered_active().to_multiset().len() == m.offered_active().len());
    assert(m.offered_replacement().to_multiset().len() == m.offered_replacement().len());
}

/// Streams that keep their promise — timestamps nondecreasing within
/// each worker — are merged without any reordering: the buffer a
/// converged handoff accumulated is itself already in nondecreasing
/// timestamp order, before any final sort.
pub proof fn lemma_monotone_streams_merge_in_order(m: &Merger)
    requires
        m.inv(),
        m.status() == MergeStatus::Converged,
        sorted_by_ts(m.offered_active()),
        sorted_by_ts(m.offered_replacement()),
    ensures
        sorted_by_ts(m.buffer()),
{
}

} // verus!
