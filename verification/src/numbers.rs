//! Arithmetic on machine integers: absolute value and Fibonacci numbers.

use vstd::prelude::*;

verus! {

/// The absolute value of `x`.
///
/// `i32::MIN` has no absolute value in `i32`, so it is excluded.
pub fn abs(x: i32) -> (r: i32)
    requires
        x != i32::MIN,
    ensures
        0 <= r,
        r == x || r == -x,
        0 <= x ==> r == x,
{
    if x < 0 {
        -x
    } else {
        x
    }
}

/// The Fibonacci numbers: 0, 1, 1, 2, 3, 5, 8, ...
pub open spec fn fibonacci(n: nat) -> nat
    decreases n,
{
    if n < 2 {
        n
    } else {
        fibonacci((n - 1) as nat) + fibonacci((n - 2) as nat)
    }
}

/// The index of the largest Fibonacci number that fits in a `u32`.
pub const FIB_LAST_INDEX: u32 = 47;

/// The two starting values and the recurrence that define the sequence.
pub proof fn lemma_fibonacci_recurrence(n: nat)
    ensures
        fibonacci(0) == 0,
        fibonacci(1) == 1,
        n >= 2 ==> fibonacci(n) == fibonacci((n - 1) as nat) + fibonacci((n - 2) as nat),
{
}

/// The Fibonacci numbers never decrease.
pub proof fn lemma_fibonacci_monotone(i: nat, j: nat)
    requires
        i <= j,
    ensures
        fibonacci(i) <= fibonacci(j),
    decreases j,
{
    if i < j && j >= 2 {
        lemma_fibonacci_monotone(i, (j - 1) as nat);
    }
}

/// `fibonacci(47)` is the last one below `2^32`.
pub proof fn lemma_fibonacci_last_in_u32()
    ensures
        fibonacci(47) == 2971215073,
        fibonacci(48) == 4807526976,
{
    // Each value follows from the two before it.
    assert(fibonacci(0) == 0);
    assert(fibonacci(1) == 1);
    assert(fibonacci(2) == 1);
    assert(fibonacci(3) == 2);
    assert(fibonacci(4) == 3);
    assert(fibonacci(5) == 5);
    assert(fibonacci(6) == 8);
    assert(fibonacci(7) == 13);
    assert(fibonacci(8) == 21);
    assert(fibonacci(9) == 34);
    assert(fibonacci(10) == 55);
    assert(fibonacci(11) == 89);
    assert(fibonacci(12) == 144);
    assert(fibonacci(13) == 233);
    assert(fibonacci(14) == 377);
    assert(fibonacci(15) == 610);
    assert(fibonacci(16) == 987);
    assert(fibonacci(17) == 1597);
    assert(fibonacci(18) == 2584);
    assert(fibonacci(19) == 4181);
    assert(fibonacci(20) == 6765);
    assert(fibonacci(21) == 10946);
    assert(fibonacci(22) == 17711);
    assert(fibonacci(23) == 28657);
    assert(fibonacci(24) == 46368);
    assert(fibonacci(25) == 75025);
    assert(fibonacci(26) == 121393);
    assert(fibonacci(27) == 196418);
    assert(fibonacci(28) == 317811);
    assert(fibonacci(29) == 514229);
    assert(fibonacci(30) == 832040);
    assert(fibonacci(31) == 1346269);
    assert(fibonacci(32) == 2178309);
    assert(fibonacci(33) == 3524578);
    assert(fibonacci(34) == 5702887);
    assert(fibonacci(35) == 9227465);
    assert(fibonacci(36) == 14930352);
    assert(fibonacci(37) == 24157817);
    assert(fibonacci(38) == 39088169);
    assert(fibonacci(39) == 63245986);
    assert(fibonacci(40) == 102334155);
    assert(fibonacci(41) == 165580141);
    assert(fibonacci(42) == 267914296);
    assert(fibonacci(43) == 433494437);
    assert(fibonacci(44) == 701408733);
    assert(fibonacci(45) == 1134903170);
    assert(fibonacci(46) == 1836311903);
    assert(fibonacci(47) == 2971215073);
    assert(fibonacci(48) == 4807526976);
}

/// A Fibonacci number fits in a `u32` exactly when its index is at most
/// `FIB_LAST_INDEX`.
pub proof fn lemma_fibonacci_fits(n: nat)
    ensures
        n <= FIB_LAST_INDEX <==> fibonacci(n) <= u32::MAX,
{
    lemma_fibonacci_last_in_u32();
    if n <= 47 {
        lemma_fibonacci_monotone(n, 47);
    } else {
        lemma_fibonacci_monotone(48, n);
    }
}

/// The `n`-th Fibonacci number, computed by the defining recurrence.
pub fn fib(n: u32) -> (r: u32)
    requires
        n <= FIB_LAST_INDEX,
    ensures
        r == fibonacci(n as nat),
    decreases n,
{
    if n == 0 {
        0
    } else if n == 1 {
        1
    } else {
        proof {
            lemma_fibonacci_fits(n as nat);
        }
        fib(n - 1) + fib(n - 2)
    }
}

} // verus!
