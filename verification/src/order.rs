//! The ordering that sorting and searching rely on.
//!
//! Elements are compared with the operators of `PartialOrd`.  The functions
//! here say, over values, what those operators mean and which laws they must
//! obey for every sequence to have exactly one sorted arrangement.

use std::cmp::Ordering;
use vstd::prelude::*;
use vstd::std_specs::cmp::PartialOrdSpec;

verus! {

/// `x` comes strictly before `y`: what `x < y` computes.
pub open spec fn lt<T: PartialOrd>(x: T, y: T) -> bool {
    x.partial_cmp_spec(&y) == Some(Ordering::Less)
}

/// `x` comes before `y` or ranks equal to it: what `x <= y` computes.
pub open spec fn le<T: PartialOrd>(x: T, y: T) -> bool {
    x.partial_cmp_spec(&y) == Some(Ordering::Less) || x.partial_cmp_spec(&y) == Some(
        Ordering::Equal,
    )
}

/// The comparison operators of `T` compute what `lt` and `le` say.
pub open spec fn operators_agree<T: PartialOrd>() -> bool {
    T::obeys_partial_cmp_spec()
}

/// The comparison operators of `T` form a total order in which only
/// identical values rank equal.
pub open spec fn total_order<T: PartialOrd>() -> bool {
    &&& operators_agree::<T>()
    &&& forall|x: T, y: T| #[trigger] x.partial_cmp_spec(&y) is Some
    &&& forall|x: T, y: T|
        #[trigger] x.partial_cmp_spec(&y) == Some(Ordering::Equal) <==> x == y
    &&& forall|x: T, y: T|
        #[trigger] x.partial_cmp_spec(&y) == Some(Ordering::Greater) <==> y.partial_cmp_spec(&x)
            == Some(Ordering::Less)
    &&& forall|x: T, y: T, z: T|
        #[trigger] x.partial_cmp_spec(&y) == Some(Ordering::Less) && #[trigger] y.partial_cmp_spec(
            &z,
        ) == Some(Ordering::Less) ==> x.partial_cmp_spec(&z) == Some(Ordering::Less)
}

/// In a total order exactly one of `x < y`, `x == y`, `y < x` holds.
pub proof fn lemma_trichotomy<T: PartialOrd>(x: T, y: T)
    requires
        total_order::<T>(),
    ensures
        lt(x, y) || x == y || lt(y, x),
        !(lt(x, y) && x == y),
        !(lt(y, x) && x == y),
        !(lt(x, y) && lt(y, x)),
{
    match x.partial_cmp_spec(&y) {
        Some(Ordering::Less) => {
            assert(lt(x, y));
        },
        Some(Ordering::Equal) => {
            assert(x == y);
        },
        Some(Ordering::Greater) => {
            assert(lt(y, x));
        },
        None => {},
    }
    assert(x.partial_cmp_spec(&x) == Some(Ordering::Equal));
    if lt(x, y) && lt(y, x) {
        assert(lt(x, x));
    }
}

/// In a total order `le` is reflexive, transitive, antisymmetric and total,
/// and it is the negation of `lt` with the sides exchanged.
pub proof fn lemma_le_laws<T: PartialOrd>(x: T, y: T, z: T)
    requires
        total_order::<T>(),
    ensures
        le(x, x),
        le(x, y) && le(y, z) ==> le(x, z),
        le(x, y) && le(y, x) ==> x == y,
        le(x, y) || le(y, x),
        le(x, y) <==> !lt(y, x),
        le(x, y) <==> lt(x, y) || x == y,
{
    lemma_trichotomy(x, y);
    lemma_trichotomy(y, z);
    lemma_trichotomy(x, z);
    assert(x.partial_cmp_spec(&x) == Some(Ordering::Equal));
}

/// In a total order a strict step and a weak step, in either sequence, make
/// a strict step.
pub proof fn lemma_lt_le_chain<T: PartialOrd>(x: T, y: T, z: T)
    requires
        total_order::<T>(),
    ensures
        lt(x, y) && le(y, z) ==> lt(x, z),
        le(x, y) && lt(y, z) ==> lt(x, z),
{
    // Were `z` at most `x`, transitivity would put `y` at most `x` in the
    // first case and `z` at most `y` in the second.
    lemma_le_laws(y, z, x);
    lemma_le_laws(z, x, y);
    lemma_le_laws(y, x, x);
    lemma_le_laws(z, y, y);
}

/// The integers of `i32` are totally ordered by `<`.
pub proof fn lemma_i32_total_order()
    ensures
        total_order::<i32>(),
        forall|x: i32, y: i32| lt(x, y) <==> x < y,
        forall|x: i32, y: i32| le(x, y) <==> x <= y,
{
}

} // verus!
