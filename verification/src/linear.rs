//! Single passes over a vector of integers: the greatest element, where it
//! stands, whether a value is attained exactly once, and linear search.

use vstd::prelude::*;

verus! {

/// `m` is the greatest element of `s`: no element exceeds it and some element
/// equals it.
pub open spec fn is_max_of(s: Seq<i32>, m: i32) -> bool {
    &&& forall|k: int| 0 <= k < s.len() ==> s[k] <= m
    &&& exists|k: int| 0 <= k < s.len() && s[k] == m
}

/// `k` is the one and only position of `s` that holds `v`.
pub open spec fn attained_only_at(s: Seq<i32>, v: i32, k: int) -> bool {
    &&& 0 <= k < s.len()
    &&& s[k] == v
    &&& forall|j: int| 0 <= j < s.len() && s[j] == v ==> j == k
}

/// Exactly one position of `s` holds `v`.
pub open spec fn attained_once(s: Seq<i32>, v: i32) -> bool {
    exists|k: int| attained_only_at(s, v, k)
}

/// A sequence has at most one greatest element.
pub proof fn lemma_max_is_determined(s: Seq<i32>, m1: i32, m2: i32)
    requires
        is_max_of(s, m1),
        is_max_of(s, m2),
    ensures
        m1 == m2,
{
    let k1 = choose|k: int| 0 <= k < s.len() && s[k] == m1;
    let k2 = choose|k: int| 0 <= k < s.len() && s[k] == m2;
    assert(s[k1] <= m2);
    assert(s[k2] <= m1);
}

/// A greatest element that is attained once is strictly greater than the
/// element at every other position.
pub proof fn lemma_unique_max_is_strict(s: Seq<i32>, m: i32, k: int)
    requires
        is_max_of(s, m),
        attained_only_at(s, m, k),
    ensures
        forall|j: int| 0 <= j < s.len() && j != k ==> s[j] < m,
{
}

/// The greatest element of a non-empty vector.
pub fn maximum(values: Vec<i32>) -> (max: i32)
    requires
        values.len() >= 1,
    ensures
        is_max_of(values@, max),
{
    let mut max: i32 = values[0];
    let n: usize = values.len();
    for i in 0..n
        invariant
            n == values.len(),
            n >= 1,
            // `max` is the greatest of the elements looked at so far.
            forall|k: int| 0 <= k < i ==> values[k] <= max,
            exists|k: int| (k == 0 || 0 <= k < i) && values[k] == max,
    {
        let cur_val: i32 = values[i];
        if max < cur_val {
            max = cur_val;
        }
    }
    max
}

/// Whether exactly one position of `values` holds `mx`.
pub fn maximum_is_unique(mx: i32, values: Vec<i32>) -> (unique: bool)
    ensures
        unique <==> attained_once(values@, mx),
{
    let n: usize = values.len();
    let mut first: Option<usize> = None;
    for i in 0..n
        invariant
            n == values.len(),
            match first {
                Some(f) => f < i && values[f as int] == mx && forall|k: int|
                    0 <= k < i && values[k] == mx ==> k == f,
                None => forall|k: int| 0 <= k < i ==> values[k] != mx,
            },
    {
        if values[i] == mx {
            if first.is_some() {
                // Two positions hold `mx`, so none is the only one.
                assert forall|k: int| !attained_only_at(values@, mx, k) by {
                    assert(values[first.unwrap() as int] == mx && values[i as int] == mx);
                }
                return false;
            }
            first = Some(i);
        }
    }
    proof {
        match first {
            Some(f) => {
                assert(attained_only_at(values@, mx, f as int));
            },
            None => {
                assert forall|k: int| !attained_only_at(values@, mx, k) by {}
            },
        }
    }
    first.is_some()
}

/// Linear search for `key`.
///
/// The result is the first position that holds `key`.  When no position
/// does, the result is the length of `a`, which is no position of it.
pub fn find(a: Vec<i32>, key: i32) -> (index: usize)
    ensures
        index <= a.len(),
        index < a.len() <==> a@.contains(key),
        index < a.len() ==> a[index as int] == key,
        index == a.len() ==> forall|k: int| 0 <= k < a.len() ==> a[k] != key,
        forall|k: int| 0 <= k < index ==> a[k] != key,
{
    let n: usize = a.len();
    let mut i: usize = 0;
    while i < n
        invariant
            n == a.len(),
            i <= n,
            forall|k: int| 0 <= k < i ==> a[k] != key,
        decreases n - i,
    {
        if a[i] == key {
            return i;
        }
        i += 1;
    }
    n
}

/// The position of the greatest element of a non-empty vector; where it
/// occurs more than once, the first of them.
pub fn find_max(a: Vec<i32>) -> (index: usize)
    requires
        a.len() >= 1,
    ensures
        index < a.len(),
        is_max_of(a@, a[index as int]),
        forall|k: int| 0 <= k < index ==> a[k] < a[index as int],
{
    let n: usize = a.len();
    let mut best: usize = 0;
    let mut i: usize = 1;
    while i < n
        invariant
            n == a.len(),
            1 <= i <= n,
            best < i,
            forall|k: int| 0 <= k < i ==> a[k] <= a[best as int],
            forall|k: int| 0 <= k < best ==> a[k] < a[best as int],
        decreases n - i,
    {
        if a[best] < a[i] {
            best = i;
        }
        i += 1;
    }
    best
}

} // verus!
