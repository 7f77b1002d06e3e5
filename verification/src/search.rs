//! Binary search in a sorted vector.

use crate::order::{le, lemma_le_laws, lemma_lt_le_chain, lemma_trichotomy, lt, total_order};
use crate::sorting::{is_ascending, is_sorted, lemma_sorted_is_ascending};
use vstd::prelude::*;

verus! {

/// Searches the sorted vector `a` for `val` by halving the interval that can
/// still hold it.
///
/// The result is the first position that holds `val`, or `None` when no
/// position does.
pub fn binary_search<T>(a: Vec<T>, val: T) -> (result: Option<usize>) where
    T: PartialEq + PartialOrd,
    requires
        total_order::<T>(),
        is_sorted(a@),
    ensures
        result is Some <==> a@.contains(val),
        match result {
            Some(i) => i < a.len() && a[i as int] == val && forall|k: int|
                0 <= k < i ==> a[k] != val,
            None => forall|k: int| 0 <= k < a.len() ==> a[k] != val,
        },
{
    proof {
        lemma_sorted_is_ascending(a@);
    }
    let mut low: usize = 0;
    let mut high: usize = a.len();
    while low < high
        invariant
            total_order::<T>(),
            is_ascending(a@),
            low <= high <= a.len(),
            // What stands before `low` is less than `val`; what stands from
            // `high` on is not.
            forall|k: int| 0 <= k < low ==> lt(a[k], val),
            forall|k: int| high <= k < a.len() ==> le(val, a[k]),
        decreases high - low,
    {
        let mid: usize = low + (high - low) / 2;
        if a[mid] < val {
            proof {
                assert forall|k: int| 0 <= k < mid + 1 implies lt(a[k], val) by {
                    lemma_lt_le_chain(a[k], a[mid as int], val);
                }
            }
            low = mid + 1;
        } else {
            proof {
                assert forall|k: int| mid <= k < a.len() implies le(val, a[k]) by {
                    lemma_le_laws(val, a[mid as int], a[k]);
                }
            }
            high = mid;
        }
    }
    proof {
        assert forall|k: int| 0 <= k < low implies a[k] != val by {
            lemma_trichotomy(a[k], val);
        }
    }
    if low < a.len() && !(val < a[low]) {
        proof {
            lemma_le_laws(a[low as int], val, a[low as int]);
        }
        Some(low)
    } else {
        proof {
            assert forall|k: int| low <= k < a.len() implies a[k] != val by {
                lemma_lt_le_chain(val, a[low as int], a[k]);
                lemma_trichotomy(val, a[k]);
            }
        }
        None
    }
}

} // verus!
