//! Sorted sequences and sorting in place.

use crate::order::{le, lemma_le_laws, lemma_lt_le_chain, operators_agree, total_order};
use vstd::prelude::*;
use vstd::relations::total_ordering;
use vstd::seq_lib::{lemma_sorted_unique, to_multiset_update};

verus! {

/// The elements at `i` and `i + 1` are in order.
pub open spec fn in_order_at<T: PartialOrd>(s: Seq<T>, i: int) -> bool {
    le(s[i], s[i + 1])
}

/// `s` is sorted: every element is at most the one that follows it.
pub open spec fn is_sorted<T: PartialOrd>(s: Seq<T>) -> bool {
    forall|i: int| 0 <= i && i + 1 < s.len() ==> #[trigger] in_order_at(s, i)
}

/// Every element of `s` is at most every element that stands after it.
pub open spec fn is_ascending<T: PartialOrd>(s: Seq<T>) -> bool {
    forall|i: int, j: int| 0 <= i <= j < s.len() ==> le(s[i], s[j])
}

/// `t` holds the elements of `s`, each as often as `s` does.
pub open spec fn is_permutation_of<T>(t: Seq<T>, s: Seq<T>) -> bool {
    t.to_multiset() == s.to_multiset()
}

/// The sequence `s` with the elements at `i` and `j` exchanged.
pub open spec fn exchanged<T>(s: Seq<T>, i: int, j: int) -> Seq<T> {
    s.update(i, s[j]).update(j, s[i])
}

/// In a total order, a sequence whose neighbours are in order is in order
/// throughout, and the other way round.
pub proof fn lemma_sorted_is_ascending<T: PartialOrd>(s: Seq<T>)
    requires
        total_order::<T>(),
    ensures
        is_sorted(s) <==> is_ascending(s),
{
    if is_sorted(s) {
        assert forall|i: int, j: int| 0 <= i <= j < s.len() implies le(s[i], s[j]) by {
            lemma_sorted_pair(s, i, j);
        }
    }
    if is_ascending(s) {
        assert forall|i: int| 0 <= i && i + 1 < s.len() implies #[trigger] in_order_at(s, i) by {
            assert(le(s[i], s[i + 1]));
        }
    }
}

/// In a sorted sequence an element is at most any element after it.
proof fn lemma_sorted_pair<T: PartialOrd>(s: Seq<T>, i: int, j: int)
    requires
        total_order::<T>(),
        is_sorted(s),
        0 <= i <= j < s.len(),
    ensures
        le(s[i], s[j]),
    decreases j - i,
{
    if i == j {
        lemma_le_laws(s[i], s[i], s[i]);
    } else {
        lemma_sorted_pair(s, i, j - 1);
        assert(in_order_at(s, j - 1));
        lemma_le_laws(s[i], s[j - 1], s[j]);
    }
}

/// Exchanging two elements keeps the elements of a sequence.
pub proof fn lemma_exchanged_is_permutation<T>(s: Seq<T>, i: int, j: int)
    requires
        0 <= i < s.len(),
        0 <= j < s.len(),
    ensures
        is_permutation_of(exchanged(s, i, j), s),
{
    let mid = s.update(i, s[j]);
    to_multiset_update(s, i, s[j]);
    to_multiset_update(mid, j, s[i]);
    s.to_multiset_ensures();
    assert(exchanged(s, i, j).to_multiset() =~= s.to_multiset());
}

/// In a total order a sequence has only one sorted arrangement.
pub proof fn lemma_sorted_arrangement_is_determined<T: PartialOrd>(
    s: Seq<T>,
    t1: Seq<T>,
    t2: Seq<T>,
)
    requires
        total_order::<T>(),
        is_sorted(t1),
        is_permutation_of(t1, s),
        is_sorted(t2),
        is_permutation_of(t2, s),
    ensures
        t1 == t2,
{
    let leq = |x: T, y: T| le(x, y);
    assert(total_ordering(leq)) by {
        assert forall|x: T| #[trigger] leq(x, x) by {
            lemma_le_laws(x, x, x);
        }
        assert forall|x: T, y: T| #[trigger] leq(x, y) && #[trigger] leq(y, x) implies x == y by {
            lemma_le_laws(x, y, y);
        }
        assert forall|x: T, y: T, z: T| #[trigger] leq(x, y) && #[trigger] leq(y, z) implies leq(
            x,
            z,
        ) by {
            lemma_le_laws(x, y, z);
        }
        assert forall|x: T, y: T| #[trigger] leq(x, y) || #[trigger] leq(y, x) by {
            lemma_le_laws(x, y, y);
        }
    }
    lemma_sorted_is_ascending(t1);
    lemma_sorted_is_ascending(t2);
    lemma_sorted_unique(t1, t2, leq);
}

/// Sorting what is sorted already changes nothing.
pub proof fn lemma_sorting_keeps_sorted<T: PartialOrd>(s: Seq<T>, t: Seq<T>)
    requires
        total_order::<T>(),
        is_sorted(s),
        is_sorted(t),
        is_permutation_of(t, s),
    ensures
        t == s,
{
    lemma_sorted_arrangement_is_determined(s, t, s);
}

/// Sorting twice gives what sorting once gives: where `once` is a sorted
/// arrangement of `s` and `twice` is one of `once`, the two are the same.
pub proof fn lemma_sorting_is_idempotent<T: PartialOrd>(s: Seq<T>, once: Seq<T>, twice: Seq<T>)
    requires
        total_order::<T>(),
        is_sorted(once),
        is_permutation_of(once, s),
        is_sorted(twice),
        is_permutation_of(twice, once),
    ensures
        twice == once,
{
    lemma_sorting_keeps_sorted(once, twice);
}

/// Whether `a` is sorted.
pub fn sorted<T>(a: &[T]) -> (r: bool) where T: PartialEq + PartialOrd
    requires
        operators_agree::<T>(),
    ensures
        r == is_sorted(a@),
{
    let n: usize = a.len();
    let mut i: usize = 1;
    while i < n
        invariant
            n == a@.len(),
            1 <= i,
            operators_agree::<T>(),
            forall|k: int| 0 <= k && k + 1 < i ==> #[trigger] in_order_at(a@, k),
        decreases n - i,
    {
        if !(a[i - 1] <= a[i]) {
            assert(!in_order_at(a@, i - 1));
            return false;
        }
        i += 1;
    }
    true
}

/// Exchanges the elements at `i` and `j`.
fn swap_at<T>(a: &mut [T], i: usize, j: usize)
    requires
        i < j < old(a)@.len(),
    ensures
        final(a)@ == exchanged(old(a)@, i as int, j as int),
{
    let (head, tail) = a.split_at_mut(j);
    std::mem::swap(&mut head[i], &mut tail[0]);
}

/// The position of a least element among those from `from` on.
fn position_of_least<T: PartialOrd>(a: &[T], from: usize) -> (least: usize)
    requires
        total_order::<T>(),
        from < a@.len(),
    ensures
        from <= least < a@.len(),
        forall|k: int| from <= k < a@.len() ==> le(a@[least as int], a@[k]),
{
    let n: usize = a.len();
    let mut least: usize = from;
    let mut i: usize = from + 1;
    while i < n
        invariant
            total_order::<T>(),
            n == a@.len(),
            from <= least < i <= n,
            forall|k: int| from <= k < i ==> le(a@[least as int], a@[k]),
        decreases n - i,
    {
        if a[i] < a[least] {
            proof {
                assert forall|k: int| from <= k < i + 1 implies le(a@[i as int], a@[k]) by {
                    lemma_lt_le_chain(a@[i as int], a@[least as int], a@[k]);
                    lemma_le_laws(a@[i as int], a@[k], a@[k]);
                }
            }
            least = i;
        } else {
            proof {
                lemma_le_laws(a@[least as int], a@[i as int], a@[i as int]);
            }
        }
        i += 1;
    }
    least
}

/// Sorts `a` in place.
///
/// Afterwards `a` holds the elements it held before, in non-decreasing order.
pub fn sort<T>(a: &mut [T]) where T: PartialEq + PartialOrd
    requires
        total_order::<T>(),
    ensures
        is_sorted(final(a)@),
        is_permutation_of(final(a)@, old(a)@),
{
    let n: usize = a.len();
    let mut i: usize = 0;
    while i < n
        invariant
            total_order::<T>(),
            n == a@.len(),
            i <= n,
            is_permutation_of(a@, old(a)@),
            forall|p: int, q: int| 0 <= p < i && p <= q < n ==> le(a@[p], a@[q]),
        decreases n - i,
    {
        let least: usize = position_of_least(a, i);
        let ghost before = a@;
        if least != i {
            swap_at(a, i, least);
        }
        proof {
            if least != i {
                lemma_exchanged_is_permutation(before, i as int, least as int);
            }
            // What now stands at `i` is at most all that follows, and each
            // element before `i` is still at most all that follows it.
            assert forall|p: int, q: int| 0 <= p < i + 1 && p <= q < n implies le(a@[p], a@[q]) by {
                let from: int = if q == i {
                    least as int
                } else if q == least {
                    i as int
                } else {
                    q
                };
                assert(a@[q] == before[from]);
            }
        }
        i += 1;
    }
    proof {
        assert(is_ascending(a@));
        lemma_sorted_is_ascending(a@);
    }
}

} // verus!
