use vstd::prelude::*;
use vstd::multiset::Multiset;
use crate::record::{Record, sorted_by_ts};

verus! {

proof fn lemma_swap_preserves_ms(s: Seq<Record>, i: int, j: int)
    requires
        0 <= i < s.len(),
        0 <= j < s.len(),
        i != j,
    ensures
        s.update(i, s[j]).update(j, s[i]).to_multiset() == s.to_multiset(),
{
    let s1 = s.update(i, s[j]);
    let s2 = s1.update(j, s[i]);
    vstd::seq_lib::to_multiset_update(s, i, s[j]);
    vstd::seq_lib::to_multiset_update(s1, j, s[i]);
    assert(s1[j] == s[j]);
    assert forall|v: Record| s2.to_multiset().count(v) == s.to_multiset().count(v) by {
        let m = s.to_multiset();
        assert(m.count(s[i]) > 0) by {
            vstd::seq_lib::to_multiset_contains(s, s[i]);
            assert(s.contains(s[i]));
        }
        assert(m.count(s[j]) > 0) by {
            vstd::seq_lib::to_multiset_contains(s, s[j]);
            assert(s.contains(s[j]));
        }
        assert(m.insert(s[j]).count(v) == m.count(v) + Multiset::<Record>::singleton(
            s[j]).count(v));
        assert(m.insert(s[j]).remove(s[i]).insert(s[i]).count(v) == m.insert(s[j]).remove(
            s[i]).count(v) + Multiset::<Record>::singleton(s[i]).count(v));
    }
    assert(s2.to_multiset() =~= s.to_multiset());
}

/// Sorts the records by timestamp, in place. The result is nondecreasing
/// in timestamp and holds exactly the records that were given, none
/// added, none dropped.
pub fn sort_by_time(v: &mut Vec<Record>)
    ensures
        sorted_by_ts(final(v)@),
        final(v)@.to_multiset() == old(v)@.to_multiset(),
        final(v)@.len() == old(v)@.len(),
{
    let ghost orig = v@;
    let n = v.len();
    if n < 2 {
        return ;
    }
    let mut i: usize = 1;
    while i < n
        invariant
            1 <= i <= n,
            n == v@.len(),
            v@.to_multiset() == orig.to_multiset(),
            sorted_by_ts(v@.take(i as int)),
        decreases n - i,
    {
        proof {
            assert forall|a: int, b: int| 0 <= a <= b < i implies #[trigger] v@[a].ts_nanos
                <= #[trigger] v@[b].ts_nanos by {
                assert(v@.take(i as int)[a] == v@[a]);
                assert(v@.take(i as int)[b] == v@[b]);
                assert(v@.take(i as int)[a].ts_nanos <= v@.take(i as int)[b].ts_nanos);
            }
        }
        let mut j: usize = i;
        while j > 0 && v[j - 1].ts_nanos > v[j].ts_nanos
            invariant
                0 <= j <= i < n == v@.len(),
                v@.to_multiset() == orig.to_multiset(),
                forall|a: int, b: int|
                    0 <= a <= b <= i && a != j && b != j ==> #[trigger] v@[a].ts_nanos
                        <= #[trigger] v@[b].ts_nanos,
                forall|b: int| j < b <= i ==> v@[j as int].ts_nanos <= #[trigger] v@[b].ts_nanos,
            decreases j,
        {
            let x = v[j - 1];
            let y = v[j];
            proof {
                lemma_swap_preserves_ms(v@, j - 1, j as int);
            }
            v.set(j - 1, y);
            v.set(j, x);
            j = j - 1;
        }
        proof {
            assert forall|a: int, b: int| 0 <= a <= b < i + 1 implies #[trigger] v@[a].ts_nanos
                <= #[trigger] v@[b].ts_nanos by {
                if a == b {
                } else if b == j {
                    assert(a < j);
                    if j > 0 {
                        assert(v@[a].ts_nanos <= v@[j - 1].ts_nanos);
                        assert(v@[j - 1].ts_nanos <= v@[j as int].ts_nanos);
                    }
                } else if a == j {
                } else {
                }
            }
            assert(sorted_by_ts(v@.take(i + 1))) by {
                assert(forall|k: int|
                    0 <= k < i + 1 ==> #[trigger] v@.take(i + 1)[k] == v@[k]);
            }
        }
        i = i + 1;
    }
    proof {
        assert(v@.take(n as int) =~= v@);
    }
}

} // verus!
