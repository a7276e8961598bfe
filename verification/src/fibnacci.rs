//! The sum of the odd Fibonacci numbers below a threshold.

use vstd::prelude::*;
use crate::fib::{lemma_fib_monotonic, spec_fib};

verus! {

/// The sum of the odd values among the first `n` Fibonacci numbers.
pub open spec fn odd_fib_sum_upto(n: nat) -> nat
    decreases n,
{
    if n == 0 {
        0
    } else {
        odd_fib_sum_upto((n - 1) as nat) + if spec_fib((n - 1) as nat) % 2 == 1 {
            spec_fib((n - 1) as nat)
        } else {
            0
        }
    }
}

/// The sum never shrinks as more Fibonacci numbers are taken in.
proof fn lemma_odd_fib_sum_monotonic(i: nat, j: nat)
    requires
        i <= j,
    ensures
        odd_fib_sum_upto(i) <= odd_fib_sum_upto(j),
    decreases j,
{
    if i < j {
        lemma_odd_fib_sum_monotonic(i, (j - 1) as nat);
    }
}

/// The concrete Fibonacci values and odd-sum values the bounds need.
#[verifier::rlimit(100)]
proof fn lemma_fib_tables()
    ensures
        spec_fib(47) == 2971215073,
        spec_fib(48) == 4807526976,
        odd_fib_sum_upto(47) == 3321919439,
{
    reveal_with_fuel(spec_fib, 2);
    reveal_with_fuel(odd_fib_sum_upto, 2);
    assert(spec_fib(2) == 1);
    assert(spec_fib(3) == 2);
    assert(spec_fib(4) == 3);
    assert(spec_fib(5) == 5);
    assert(spec_fib(6) == 8);
    assert(spec_fib(7) == 13);
    assert(spec_fib(8) == 21);
    assert(spec_fib(9) == 34);
    assert(spec_fib(10) == 55);
    assert(spec_fib(11) == 89);
    assert(spec_fib(12) == 144);
    assert(spec_fib(13) == 233);
    assert(spec_fib(14) == 377);
    assert(spec_fib(15) == 610);
    assert(spec_fib(16) == 987);
    assert(spec_fib(17) == 1597);
    assert(spec_fib(18) == 2584);
    assert(spec_fib(19) == 4181);
    assert(spec_fib(20) == 6765);
    assert(spec_fib(21) == 10946);
    assert(spec_fib(22) == 17711);
    assert(spec_fib(23) == 28657);
    assert(spec_fib(24) == 46368);
    assert(spec_fib(25) == 75025);
    assert(spec_fib(26) == 121393);
    assert(spec_fib(27) == 196418);
    assert(spec_fib(28) == 317811);
    assert(spec_fib(29) == 514229);
    assert(spec_fib(30) == 832040);
    assert(spec_fib(31) == 1346269);
    assert(spec_fib(32) == 2178309);
    assert(spec_fib(33) == 3524578);
    assert(spec_fib(34) == 5702887);
    assert(spec_fib(35) == 9227465);
    assert(spec_fib(36) == 14930352);
    assert(spec_fib(37) == 24157817);
    assert(spec_fib(38) == 39088169);
    assert(spec_fib(39) == 63245986);
    assert(spec_fib(40) == 102334155);
    assert(spec_fib(41) == 165580141);
    assert(spec_fib(42) == 267914296);
    assert(spec_fib(43) == 433494437);
    assert(spec_fib(44) == 701408733);
    assert(spec_fib(45) == 1134903170);
    assert(spec_fib(46) == 1836311903);
    assert(spec_fib(47) == 2971215073);

    assert(odd_fib_sum_upto(1) == 0);
    assert(odd_fib_sum_upto(2) == 1);
    assert(odd_fib_sum_upto(3) == 2);
    assert(odd_fib_sum_upto(4) == 2);
    assert(odd_fib_sum_upto(5) == 5);
    assert(odd_fib_sum_upto(6) == 10);
    assert(odd_fib_sum_upto(7) == 10);
    assert(odd_fib_sum_upto(8) == 23);
    assert(odd_fib_sum_upto(9) == 44);
    assert(odd_fib_sum_upto(10) == 44);
    assert(odd_fib_sum_upto(11) == 99);
    assert(odd_fib_sum_upto(12) == 188);
    assert(odd_fib_sum_upto(13) == 188);
    assert(odd_fib_sum_upto(14) == 421);
    assert(odd_fib_sum_upto(15) == 798);
    assert(odd_fib_sum_upto(16) == 798);
    assert(odd_fib_sum_upto(17) == 1785);
    assert(odd_fib_sum_upto(18) == 3382);
    assert(odd_fib_sum_upto(19) == 3382);
    assert(odd_fib_sum_upto(20) == 7563);
    assert(odd_fib_sum_upto(21) == 14328);
    assert(odd_fib_sum_upto(22) == 14328);
    assert(odd_fib_sum_upto(23) == 32039);
    assert(odd_fib_sum_upto(24) == 60696);
    assert(odd_fib_sum_upto(25) == 60696);
    assert(odd_fib_sum_upto(26) == 135721);
    assert(odd_fib_sum_upto(27) == 257114);
    assert(odd_fib_sum_upto(28) == 257114);
    assert(odd_fib_sum_upto(29) == 574925);
    assert(odd_fib_sum_upto(30) == 1089154);
    assert(odd_fib_sum_upto(31) == 1089154);
    assert(odd_fib_sum_upto(32) == 2435423);
    assert(odd_fib_sum_upto(33) == 4613732);
    assert(odd_fib_sum_upto(34) == 4613732);
    assert(odd_fib_sum_upto(35) == 10316619);
    assert(odd_fib_sum_upto(36) == 19544084);
    assert(odd_fib_sum_upto(37) == 19544084);
    assert(odd_fib_sum_upto(38) == 43701901);
    assert(odd_fib_sum_upto(39) == 82790070);
    assert(odd_fib_sum_upto(40) == 82790070);
    assert(odd_fib_sum_upto(41) == 185124225);
    assert(odd_fib_sum_upto(42) == 350704366);
    assert(odd_fib_sum_upto(43) == 350704366);
    assert(odd_fib_sum_upto(44) == 784198803);
    assert(odd_fib_sum_upto(45) == 1485607536);
    assert(odd_fib_sum_upto(46) == 1485607536);
    assert(odd_fib_sum_upto(47) == 3321919439);
    assert(spec_fib(47) == 2971215073);
    assert(spec_fib(48) == 4807526976);
}

/// Sums the odd Fibonacci numbers, in generation order with both unit values
/// counted, up to (not including) the first Fibonacci number that reaches
/// `threshold`.
pub fn odd_fibnacci_sum(threshold: u32) -> (r: u32)
    requires
        threshold as nat <= spec_fib(47),
    ensures
        exists|k: nat|
            spec_fib(k) >= threshold && (forall|i: nat| i < k ==> spec_fib(i) < threshold) && r
                == odd_fib_sum_upto(k),
{
    if threshold == 0 {
        proof {
            assert(spec_fib(0) >= 0 && (forall|i: nat| i < 0 ==> spec_fib(i) < 0)
                && 0 == odd_fib_sum_upto(0));
        }
        return 0;
    }
    let mut sum: u64 = 0;
    let mut counter: u32 = 0;
    let mut a: u64 = 0;
    let mut b: u64 = 1;
    loop
        invariant
            1 <= threshold,
            threshold as nat <= spec_fib(47),
            counter <= 47,
            a == spec_fib(counter as nat),
            b == spec_fib((counter + 1) as nat),
            sum == odd_fib_sum_upto(counter as nat),
            forall|i: nat| i < counter ==> spec_fib(i) < threshold,
        decreases 47 - counter,
    {
        proof {
            lemma_fib_tables();
            lemma_odd_fib_sum_monotonic(counter as nat, 47);
        }
        let result = a;
        if result >= threshold as u64 {
            return sum as u32;
        }
        proof {
            if counter >= 47 {
                lemma_fib_monotonic(47, counter as nat);
            }
            lemma_fib_monotonic((counter + 2) as nat, 48);
            lemma_odd_fib_sum_monotonic((counter + 1) as nat, 47);
        }
        let c = a + b;
        if result % 2 == 1 {
            sum = sum + result;
        }
        a = b;
        b = c;
        counter = counter + 1;
    }
}

} // verus!
