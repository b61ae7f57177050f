use vstd::prelude::*;

verus! {

/// One captured packet record, reduced to the fields the controller
/// reads. The full collection of metadata fields stays with the
/// embedding application, which keys it by `token`.
#[derive(Clone, Copy, PartialEq, Eq, Structural, Debug)]
pub struct Record {
    /// Capture timestamp in nanoseconds since the epoch; nondecreasing
    /// within a single worker's stream, and the ordering key of the merge.
    pub ts_nanos: u64,
    /// Total frame length in bytes: the identity field of the heuristic
    /// same-physical-frame test.
    pub frame_len: u64,
    /// Opaque tag chosen by the caller to find the full record again.
    pub token: u64,
}

/// The heuristic identity test: two records from different workers stand
/// for the same physical frame when they carry the same timestamp and the
/// same total frame length. Collisions are possible and accepted; the
/// token takes no part in the test.
pub open spec fn spec_records_match(a: Record, b: Record) -> bool {
    a.ts_nanos == b.ts_nanos && a.frame_len == b.frame_len
}

/// Executable form of [`spec_records_match`].
pub fn records_match(a: &Record, b: &Record) -> (r: bool)
    ensures
        r == spec_records_match(*a, *b),
{
    a.ts_nanos == b.ts_nanos && a.frame_len == b.frame_len
}

/// A sequence of records in nondecreasing timestamp order.
pub open spec fn sorted_by_ts(s: Seq<Record>) -> bool {
    forall|i: int, j: int|
        0 <= i <= j < s.len() ==> #[trigger] s[i].ts_nanos <= #[trigger] s[j].ts_nanos
}

/// Every record of `s` lies at or before `x` in time.
pub open spec fn all_at_or_before(s: Seq<Record>, x: Record) -> bool {
    forall|i: int| 0 <= i < s.len() ==> #[trigger] s[i].ts_nanos <= x.ts_nanos
}

} // verus!
