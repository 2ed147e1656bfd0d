use vstd::prelude::*;

verus! {

/// The values of `s` grow strictly from front to back.
pub open spec fn strictly_increasing(s: Seq<i32>) -> bool {
    forall|i: int, j: int| 0 <= i < j < s.len() ==> s[i] < s[j]
}

/// Every value of `s` is a positive index.
pub open spec fn positive_indices(s: Seq<i32>) -> bool {
    forall|i: int| 0 <= i < s.len() ==> #[trigger] s[i] >= 1
}

/// Picks the index a newly created task gets: the smallest positive integer
/// that no active task holds. Gaps left by completions and deletions are
/// filled first; when the active indices form the contiguous run `1..=N`
/// the answer is `N + 1`, and with no active task at all it is `1`.
///
/// `active_indices` is the ascending list of indices the active set holds.
pub fn allocate_next_index(active_indices: &Vec<i32>) -> (r: i32)
    requires
        strictly_increasing(active_indices@),
        positive_indices(active_indices@),
        forall|i: int| 0 <= i < active_indices@.len() ==> #[trigger] active_indices@[i] < i32::MAX,
    ensures
        r >= 1,
        r as int <= active_indices@.len() + 1,
        !active_indices@.contains(r),
        forall|j: i32| 1 <= j < r ==> active_indices@.contains(j),
{
    let n = active_indices.len();
    let mut expected: i32 = 1;
    let mut k: usize = 0;
    while k < n
        invariant
            k <= n,
            n == active_indices@.len(),
            expected >= 1,
            expected as int <= k + 1,
            k == 0 ==> expected == 1,
            k > 0 ==> active_indices@[k - 1] == expected - 1,
            forall|j: i32| 1 <= j < expected ==> active_indices@.contains(j),
            strictly_increasing(active_indices@),
            positive_indices(active_indices@),
            forall|i: int| 0 <= i < active_indices@.len() ==> #[trigger] active_indices@[i] < i32::MAX,
        decreases n - k,
    {
        let idx = active_indices[k];
        if idx > expected {
            assert forall|i: int| 0 <= i < active_indices@.len() implies active_indices@[i]
                != expected by {
                if i < k {
                    assert(active_indices@[i] <= active_indices@[k - 1]);
                } else {
                    assert(active_indices@[i] >= active_indices@[k as int]);
                }
            }
            return expected;
        }
        assert(k > 0 ==> active_indices@[k - 1] < active_indices@[k as int]);
        assert(idx == expected);
        assert(active_indices@.contains(expected));
        expected = idx + 1;
        k = k + 1;
    }
    assert forall|i: int| 0 <= i < active_indices@.len() implies active_indices@[i]
        != expected by {
        if i < k - 1 {
            assert(active_indices@[i] < active_indices@[k - 1]);
        }
    }
    expected
}

} // verus!
