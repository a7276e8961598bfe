//! Counting out an amount with the fixed cash denominations, always handing
//! over the largest note that still fits.

use vstd::prelude::*;

verus! {

/// The largest denomination not exceeding `amount` (one is the smallest, so
/// every positive amount can be paid).
pub open spec fn spec_largest_coin(amount: int) -> int {
    if amount >= 100 {
        100
    } else if amount >= 50 {
        50
    } else if amount >= 30 {
        30
    } else if amount >= 20 {
        20
    } else if amount >= 10 {
        10
    } else if amount >= 5 {
        5
    } else if amount >= 2 {
        2
    } else {
        1
    }
}

/// How many notes the greedy strategy hands over for `amount`.
pub open spec fn spec_coin_count(amount: int) -> int
    decreases amount,
{
    if amount <= 0 {
        0
    } else {
        1 + spec_coin_count(amount - spec_largest_coin(amount))
    }
}

/// The largest denomination not exceeding `amount`.
fn largest_coin(amount: u32) -> (r: u32)
    requires
        amount >= 1,
    ensures
        r == spec_largest_coin(amount as int),
        1 <= r <= amount,
{
    if amount >= 100 {
        100
    } else if amount >= 50 {
        50
    } else if amount >= 30 {
        30
    } else if amount >= 20 {
        20
    } else if amount >= 10 {
        10
    } else if amount >= 5 {
        5
    } else if amount >= 2 {
        2
    } else {
        1
    }
}

/// The number of notes the greedy strategy needs for `amount`.
pub fn dp_rec_mc(amount: u32) -> (r: u32)
    ensures
        r == spec_coin_count(amount as int),
{
    let ghost a0 = amount as int;
    let mut total: u32 = 0;
    let mut amount = amount;
    while amount != 0
        invariant
            amount <= a0 <= u32::MAX,
            total + spec_coin_count(amount as int) == spec_coin_count(a0),
            total <= a0 - amount,
        decreases amount,
    {
        let prev = largest_coin(amount);
        amount = amount - prev;
        total = total + 1;
    }
    total
}

} // verus!
