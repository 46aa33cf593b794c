//! Stepping through the masks with a given number of set bits, and counting
//! them.

use vstd::prelude::*;
use vstd::arithmetic::div_mod::{
    lemma_div_denominator, lemma_fundamental_div_mod, lemma_fundamental_div_mod_converse,
    lemma_mod_pos_bound,
};
use vstd::arithmetic::power2::{lemma_pow2_adds, lemma_pow2_pos, lemma_pow2_unfold, pow2};
use vstd::bits::{lemma_u64_pow2_no_overflow, lemma_u64_shl_is_mul, lemma_u64_shr_is_div};
use vstd::std_specs::bits::{axiom_u64_trailing_zeros, u64_trailing_zeros};
use crate::masks::{
    card_count, lemma_popcount_bound, lemma_popcount_split, lemma_popcount_zero, popcount,
    ALL_CARDS,
};

verus! {

/// The number whose lowest set bits are a run of `ones` bits above `zeros`
/// clear bits, with a clear bit above the run and `above` beyond that.
pub open spec fn run_mask(above: nat, zeros: nat, ones: nat) -> int {
    above * pow2(zeros + ones + 1) + pow2(zeros + ones) - pow2(zeros)
}

/// The number that follows [`run_mask`] among those with as many set bits:
/// the top bit of the run moves up by one and the rest of the run drops to
/// the bottom.
pub open spec fn run_successor(above: nat, zeros: nat, ones: nat) -> int {
    above * pow2(zeros + ones + 1) + pow2(zeros + ones) + pow2((ones - 1) as nat) - 1
}

/// A run of `ones` set bits above `zeros` clear bits has `ones` set bits.
proof fn lemma_popcount_run(zeros: nat, ones: nat)
    ensures
        pow2(zeros + ones) - pow2(zeros) >= 0,
        popcount((pow2(zeros + ones) - pow2(zeros)) as nat) == ones,
{
    let p = pow2(zeros);
    let k = pow2(ones);
    lemma_pow2_adds(zeros, ones);
    lemma_pow2_pos(zeros);
    lemma_pow2_pos(ones);
    assert(pow2(ones + zeros) == pow2(zeros + ones));
    assert((k - 1) * p + 0 == p * k - p) by (nonlinear_arith);
    assert(p * k - p >= 0) by (nonlinear_arith)
        requires
            p > 0,
            k > 0,
    ;
    lemma_popcount_split((k - 1) as nat, zeros, 0);
    lemma_popcount_bound((k - 1) as nat, ones);
}

/// The set bits of [`run_mask`] and of [`run_successor`]: as many in both,
/// the successor is the greater, and no number between them has as many.
pub proof fn lemma_run_successor(above: nat, zeros: nat, ones: nat, between: nat)
    requires
        ones >= 1,
    ensures
        run_mask(above, zeros, ones) > 0,
        popcount(run_mask(above, zeros, ones) as nat) == popcount(above) + ones,
        popcount(run_successor(above, zeros, ones) as nat) == popcount(above) + ones,
        run_mask(above, zeros, ones) < run_successor(above, zeros, ones),
        run_mask(above, zeros, ones) < between < run_successor(above, zeros, ones) ==> popcount(
            between,
        ) != popcount(above) + ones,
{
    let p = pow2(zeros);
    let k = pow2(ones);
    let h = pow2((ones - 1) as nat);
    let j = pow2(zeros + ones);
    let w = pow2(zeros + ones + 1);
    let mask = run_mask(above, zeros, ones);
    let next = run_successor(above, zeros, ones);
    lemma_pow2_pos(zeros);
    lemma_pow2_pos((ones - 1) as nat);
    lemma_pow2_unfold(ones);
    lemma_pow2_unfold(zeros + ones + 1);
    lemma_pow2_adds(zeros, ones);
    assert(j == p * k);
    assert(w == 2 * j);
    assert(k == 2 * h);
    assert(j >= k) by (nonlinear_arith)
        requires
            j == p * k,
            p >= 1,
            k >= 0,
    ;
    assert(j >= 2 * p) by (nonlinear_arith)
        requires
            j == p * k,
            k >= 2,
            p >= 1,
    ;
    let base = above * w;
    // the mask
    lemma_popcount_run(zeros, ones);
    lemma_popcount_split(above, zeros + ones + 1, (j - p) as nat);
    assert(mask == base + (j - p));
    // its successor
    lemma_popcount_split(1, zeros + ones, (h - 1) as nat);
    lemma_popcount_bound((h - 1) as nat, (ones - 1) as nat);
    assert(popcount(1) == 1) by {
        reveal_with_fuel(popcount, 2);
    }
    lemma_popcount_split(above, zeros + ones + 1, (j + h - 1) as nat);
    assert(next == base + (j + h - 1));
    // what lies between
    if mask < between < next {
        let low = (between - base) as nat;
        lemma_popcount_split(above, zeros + ones + 1, low);
        assert(between == base + low);
        if low < j {
            let high_part = low / p;
            let low_part = low % p;
            lemma_fundamental_div_mod(low as int, p as int);
            lemma_mod_pos_bound(low as int, p as int);
            assert(high_part == k - 1) by (nonlinear_arith)
                requires
                    low == p * high_part + low_part,
                    0 <= low_part < p,
                    j - p < low < j,
                    j == p * k,
            ;
            assert(low == high_part * p + low_part) by (nonlinear_arith)
                requires
                    low == p * high_part + low_part,
            ;
            assert(low_part > 0) by (nonlinear_arith)
                requires
                    low == p * high_part + low_part,
                    high_part == k - 1,
                    j - p < low,
                    j == p * k,
            ;
            lemma_popcount_split(high_part, zeros, low_part);
            lemma_popcount_bound(high_part, ones);
            lemma_popcount_zero(low_part);
        } else {
            let rest = (low - j) as nat;
            lemma_popcount_split(1, zeros + ones, rest);
            assert(1 * j + rest == low) by (nonlinear_arith)
                requires
                    rest == low - j,
            ;
            lemma_popcount_bound(rest, (ones - 1) as nat);
        }
    }
}

/// How many numbers below `limit` have exactly `bits` set bits.
pub open spec fn count_below(limit: nat, bits: nat) -> nat
    decreases limit,
{
    if limit == 0 {
        0
    } else {
        count_below((limit - 1) as nat, bits) + if popcount((limit - 1) as nat) == bits {
            1nat
        } else {
            0nat
        }
    }
}

/// Where no number from `from` up to `to` has `bits` set bits, as many lie
/// below `to` as below `from`.
pub proof fn lemma_count_gap(from: nat, to: nat, bits: nat)
    requires
        from <= to,
        forall|between: nat| from <= between < to ==> popcount(between) != bits,
    ensures
        count_below(to, bits) == count_below(from, bits),
    decreases to,
{
    if from < to {
        lemma_count_gap(from, (to - 1) as nat, bits);
    }
}

/// Zero is the only number without a set bit.
proof fn lemma_count_none(limit: nat)
    ensures
        count_below(limit, 0) == (if limit == 0 {
            0nat
        } else {
            1nat
        }),
    decreases limit,
{
    if limit > 0 {
        lemma_count_none((limit - 1) as nat);
        lemma_popcount_zero((limit - 1) as nat);
    }
}

/// The numbers from `2^n` up to `2^n + extra` are those below `extra` with
/// one more bit set.
proof fn lemma_count_shift(n: nat, extra: nat, bits: nat)
    requires
        extra <= pow2(n),
        bits >= 1,
    ensures
        count_below(pow2(n) + extra, bits) == count_below(pow2(n), bits) + count_below(
            extra,
            (bits - 1) as nat,
        ),
    decreases extra,
{
    if extra > 0 {
        let last = (extra - 1) as nat;
        lemma_count_shift(n, last, bits);
        lemma_popcount_split(1, n, last);
        assert(popcount(1) == 1) by {
            reveal_with_fuel(popcount, 2);
        }
    }
}

/// The number of masks of `n` bits with a given number of set bits, up to
/// five: the binomial coefficients.
pub proof fn lemma_count_binomial(n: nat)
    ensures
        count_below(pow2(n), 0) == 1,
        count_below(pow2(n), 1) == n,
        2 * count_below(pow2(n), 2) == n * (n - 1),
        6 * count_below(pow2(n), 3) == n * (n - 1) * (n - 2),
        24 * count_below(pow2(n), 4) == n * (n - 1) * (n - 2) * (n - 3),
        120 * count_below(pow2(n), 5) == n * (n - 1) * (n - 2) * (n - 3) * (n - 4),
    decreases n,
{
    lemma_pow2_pos(n);
    lemma_count_none(pow2(n));
    if n == 0 {
        vstd::arithmetic::power2::lemma2_to64();
        reveal_with_fuel(count_below, 2);
    } else {
        let m = (n - 1) as nat;
        let half = pow2(m);
        lemma_count_binomial(m);
        lemma_pow2_unfold(n);
        lemma_count_shift(m, half, 1);
        lemma_count_shift(m, half, 2);
        lemma_count_shift(m, half, 3);
        lemma_count_shift(m, half, 4);
        lemma_count_shift(m, half, 5);
        let c1 = count_below(half, 1) as int;
        let c2 = count_below(half, 2) as int;
        let c3 = count_below(half, 3) as int;
        let c4 = count_below(half, 4) as int;
        let c5 = count_below(half, 5) as int;
        let k = m as int;
        assert(2 * (c2 + c1) == (k + 1) * k) by (nonlinear_arith)
            requires
                c1 == k,
                2 * c2 == k * (k - 1),
        ;
        assert(6 * (c3 + c2) == (k + 1) * k * (k - 1)) by (nonlinear_arith)
            requires
                2 * c2 == k * (k - 1),
                6 * c3 == k * (k - 1) * (k - 2),
        ;
        assert(24 * (c4 + c3) == (k + 1) * k * (k - 1) * (k - 2)) by (nonlinear_arith)
            requires
                6 * c3 == k * (k - 1) * (k - 2),
                24 * c4 == k * (k - 1) * (k - 2) * (k - 3),
        ;
        assert(120 * (c5 + c4) == (k + 1) * k * (k - 1) * (k - 2) * (k - 3)) by (nonlinear_arith)
            requires
                24 * c4 == k * (k - 1) * (k - 2) * (k - 3),
                120 * c5 == k * (k - 1) * (k - 2) * (k - 3) * (k - 4),
        ;
    }
}

/// There are 2,598,960 masks of 52 bits with five set bits.
pub proof fn lemma_count_hands()
    ensures
        count_below(0x10_0000_0000_0000, 5) == 2_598_960,
{
    vstd::arithmetic::power2::lemma2_to64_rest();
    lemma_count_binomial(52);
    let count = count_below(pow2(52), 5) as int;
    let n: int = 52;
    assert(n * (n - 1) * (n - 2) * (n - 3) * (n - 4) == 52 * 51 * 50 * 49 * 48) by (nonlinear_arith)
        requires
            n == 52,
    ;
}

/// The bits of one step: `lowest` is the lowest set bit of `mask`, at
/// position `zeros`; adding it to the mask carries through the run of set
/// bits above it and leaves `ripple`, whose lowest set bit is at position
/// `top`, just above the run.
proof fn lemma_step_bits(
    mask: u64,
    negated: u64,
    lowest: u64,
    ripple: u64,
    zeros: u64,
    top: u64,
    zeros_bound: u64,
    top_bound: u64,
    tail: u64,
)
    by (bit_vector)
    requires
        0 < mask <= 0x000F_FFFF_FFFF_FFFFu64,
        mask + negated == 0x1_0000_0000_0000_0000,
        lowest == mask & negated,
        ripple == mask + lowest,
        zeros < 64,
        zeros_bound == 64 - zeros,
        (mask >> zeros) & 1 == 1,
        mask << zeros_bound == 0,
        top < 64,
        top_bound == 64 - top,
        (ripple >> top) & 1 == 1,
        ripple << top_bound == 0,
    ensures
        lowest == 1u64 << zeros,
        zeros < top <= 52,
        mask == ((mask >> ((top + 1) as u64)) << ((top + 1) as u64)) + (1u64 << top) - (1u64
            << zeros),
        ripple == ((mask >> ((top + 1) as u64)) << ((top + 1) as u64)) + (1u64 << top),
        (ripple ^ mask) >> 2 == ((2u64 << top) - (1u64 << zeros)) / 4,
        tail < (1u64 << top) ==> (tail | ripple) == tail + ripple,
{
}

/// The quotient that moves the rest of the run to the bottom: a run of
/// `ones + 1` set bits above `zeros` clear bits, shifted right by two and
/// divided by the lowest bit of the run, leaves `ones - 1` set bits at the
/// bottom.
proof fn lemma_run_tail(zeros: nat, ones: nat)
    requires
        ones >= 1,
    ensures
        (2 * pow2(zeros + ones) - pow2(zeros)) / 4 >= 0,
        ((2 * pow2(zeros + ones) - pow2(zeros)) / 4) / (pow2(zeros) as int) == pow2(
            (ones - 1) as nat,
        ) - 1,
        pow2((ones - 1) as nat) - 1 < pow2(zeros + ones),
{
    let p = pow2(zeros) as int;
    let k = pow2(ones) as int;
    let h = pow2((ones - 1) as nat) as int;
    let j = pow2(zeros + ones) as int;
    lemma_pow2_pos(zeros);
    lemma_pow2_pos((ones - 1) as nat);
    lemma_pow2_unfold(ones);
    lemma_pow2_adds(zeros, ones);
    let x = 2 * j - p;
    assert(x == (h - 1) * (4 * p) + 3 * p) by (nonlinear_arith)
        requires
            x == 2 * j - p,
            j == p * k,
            k == 2 * h,
    ;
    assert(x >= 0) by (nonlinear_arith)
        requires
            x == (h - 1) * (4 * p) + 3 * p,
            h >= 1,
            p >= 1,
    ;
    lemma_div_denominator(x, 4, p);
    lemma_fundamental_div_mod_converse(x, 4 * p, h - 1, 3 * p);
    assert(h - 1 < j) by (nonlinear_arith)
        requires
            j == p * k,
            k == 2 * h,
            h >= 1,
            p >= 1,
    ;
}

/// The next mask with as many cards: the least mask greater than `mask` that
/// has the same number of set bits.
///
/// With `c` the lowest set bit of the mask and `r` the sum of the mask and
/// `c`, the result is `(((r ^ mask) >> 2) / c) | r`.
pub fn next_combination(mask: u64) -> (next: u64)
    requires
        mask != 0,
        mask <= ALL_CARDS,
    ensures
        mask < next,
        card_count(next) == card_count(mask),
        forall|between: u64|
            mask < between < next ==> card_count(between) != card_count(mask),
{
    let negated = 0u64.wrapping_sub(mask);
    let lowest = mask & negated;
    assert(0 < lowest <= mask) by (bit_vector)
        requires
            mask != 0,
            mask + negated == 0x1_0000_0000_0000_0000,
            lowest == mask & negated,
    ;
    let ripple = mask + lowest;
    let tail = ((ripple ^ mask) >> 2) / lowest;
    let next = tail | ripple;
    proof {
        axiom_u64_trailing_zeros(mask);
        axiom_u64_trailing_zeros(ripple);
        let zeros = u64_trailing_zeros(mask) as u64;
        let top = u64_trailing_zeros(ripple) as u64;
        lemma_step_bits(
            mask,
            negated,
            lowest,
            ripple,
            zeros,
            top,
            (64 - zeros) as u64,
            (64 - top) as u64,
            tail,
        );
        let ones = (top - zeros) as nat;
        let above = mask >> ((top + 1) as u64);
        let weight = pow2((top + 1) as nat);
        lemma_u64_pow2_no_overflow(zeros as nat);
        lemma_u64_pow2_no_overflow(top as nat);
        lemma_u64_pow2_no_overflow((top + 1) as nat);
        lemma_pow2_unfold((top + 1) as nat);
        lemma_u64_shl_is_mul(1, zeros);
        lemma_u64_shl_is_mul(1, top);
        lemma_u64_shl_is_mul(2, top);
        lemma_u64_shr_is_div(mask, (top + 1) as u64);
        lemma_fundamental_div_mod(mask as int, weight as int);
        lemma_mod_pos_bound(mask as int, weight as int);
        assert(above * weight <= mask) by (nonlinear_arith)
            requires
                mask == weight * (mask as int / weight as int) + (mask as int % weight as int),
                0 <= mask as int % weight as int,
                above == mask as int / weight as int,
        ;
        lemma_u64_shl_is_mul(above, (top + 1) as u64);
        assert(mask == run_mask(above as nat, zeros as nat, ones));
        lemma_run_tail(zeros as nat, ones);
        assert(tail == pow2((ones - 1) as nat) - 1);
        assert(next == run_successor(above as nat, zeros as nat, ones));
        lemma_run_successor(above as nat, zeros as nat, ones, 0);
        assert forall|between: u64| mask < between < next implies card_count(between) != card_count(
            mask,
        ) by {
            lemma_run_successor(above as nat, zeros as nat, ones, between as nat);
        }
    }
    next
}

} // verus!
