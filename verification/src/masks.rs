//! Bit masks read as sets of cards: bit `p` of a mask is set when the card at
//! position `p` belongs to the set. Intersection is `&`, union is `|`, and
//! the number of cards is the number of set bits.

use vstd::prelude::*;
use vstd::arithmetic::power2::{pow2, lemma_pow2_pos, lemma_pow2_unfold};

verus! {

/// The mask that holds all 52 cards.
pub const ALL_CARDS: u64 = 0x000F_FFFF_FFFF_FFFF;

/// The number of set bits in the binary representation of `x`.
pub open spec fn popcount(x: nat) -> nat
    decreases x,
{
    if x == 0 {
        0
    } else {
        (x % 2) + popcount(x / 2)
    }
}

/// `u64::count_ones` of the standard library, which is documented to return
/// the number of ones in the binary representation of its argument: that
/// number is [`popcount`].
pub assume_specification[ u64::count_ones ](x: u64) -> (n: u32)
    ensures
        n == popcount(x as nat),
;

/// The number of cards that a mask holds: the number of its set bits.
pub open spec fn card_count(mask: u64) -> nat {
    popcount(mask as nat)
}

/// Whether the mask holds the card at a bit position.
pub open spec fn has_card(mask: u64, position: u64) -> bool {
    (mask >> position) & 1 == 1
}

/// A hand is a mask of exactly five of the 52 cards.
pub open spec fn is_hand(mask: u64) -> bool {
    mask <= ALL_CARDS && card_count(mask) == 5
}

/// Whether `mask` is a hand: exactly five bits set, all within the low 52.
pub fn is_hand_mask(mask: u64) -> (b: bool)
    ensures
        b == is_hand(mask),
{
    mask <= ALL_CARDS && mask.count_ones() == 5
}

/// Only the empty mask has no set bit.
pub proof fn lemma_popcount_zero(x: nat)
    ensures
        popcount(x) == 0 <==> x == 0,
    decreases x,
{
    if x != 0 {
        lemma_popcount_zero(x / 2);
    }
}

/// The set bits of `hi * 2^n + lo`, with `lo` below `2^n`, are those of `hi`
/// and those of `lo`.
pub proof fn lemma_popcount_split(hi: nat, n: nat, lo: nat)
    requires
        lo < pow2(n),
    ensures
        popcount(hi * pow2(n) + lo) == popcount(hi) + popcount(lo),
    decreases n,
{
    if n == 0 {
        assert(pow2(0) == 1) by {
            lemma_pow2_unfold(1);
            lemma_pow2_pos(0);
            vstd::arithmetic::power2::lemma2_to64();
        }
        assert(hi * pow2(0) + lo == hi) by (nonlinear_arith)
            requires
                pow2(0) == 1,
                lo == 0,
        ;
    } else {
        let half = pow2((n - 1) as nat);
        lemma_pow2_unfold(n);
        let h = hi * half;
        let x = hi * pow2(n) + lo;
        assert(x == 2 * h + lo) by (nonlinear_arith)
            requires
                x == hi * pow2(n) + lo,
                h == hi * half,
                pow2(n) == 2 * half,
        ;
        assert(x / 2 == h + lo / 2);
        assert(x % 2 == lo % 2);
        lemma_popcount_split(hi, (n - 1) as nat, lo / 2);
        if x == 0 {
            lemma_popcount_zero(hi);
            lemma_pow2_pos((n - 1) as nat);
            assert(hi == 0) by (nonlinear_arith)
                requires
                    hi * half == 0,
                    half > 0,
            ;
        }
    }
}

/// Below `2^n` a number has at most `n` set bits, and only `2^n - 1` has
/// all `n`.
pub proof fn lemma_popcount_bound(x: nat, n: nat)
    requires
        x < pow2(n),
    ensures
        popcount(x) <= n,
        popcount(x) == n <==> x == pow2(n) - 1,
    decreases n,
{
    if n == 0 {
        vstd::arithmetic::power2::lemma2_to64();
    } else {
        lemma_pow2_unfold(n);
        lemma_pow2_pos((n - 1) as nat);
        lemma_popcount_bound(x / 2, (n - 1) as nat);
    }
}

/// Two masks with no card in common: their union holds as many cards as both
/// together.
pub proof fn lemma_popcount_union(a: u64, b: u64)
    requires
        a & b == 0,
    ensures
        card_count(a | b) == card_count(a) + card_count(b),
    decreases a + b,
{
    if a != 0 || b != 0 {
        assert((a | b) / 2 == (a / 2) | (b / 2) && (a / 2) & (b / 2) == 0 && (a | b) % 2 == a % 2
            + b % 2 && (a | b) != 0) by (bit_vector)
            requires
                a & b == 0,
                a != 0 || b != 0,
        ;
        lemma_popcount_union(a / 2, b / 2);
    } else {
        assert(a | b == 0) by (bit_vector)
            requires
                a == 0,
                b == 0,
        ;
    }
}

/// A mask splits into the part inside `part` and the part outside it.
pub proof fn lemma_popcount_partition(mask: u64, part: u64)
    ensures
        card_count(mask) == card_count(mask & part) + card_count(mask & !part),
{
    assert((mask & part) & (mask & !part) == 0 && (mask & part) | (mask & !part) == mask)
        by (bit_vector);
    lemma_popcount_union(mask & part, mask & !part);
}

/// A subset holds no more cards than the whole, and as many only when it is
/// the whole.
pub proof fn lemma_popcount_subset(part: u64, mask: u64)
    requires
        mask & part == part,
    ensures
        card_count(part) <= card_count(mask),
        card_count(part) == card_count(mask) ==> part == mask,
{
    lemma_popcount_partition(mask, part);
    lemma_popcount_zero((mask & !part) as nat);
    assert(mask & !part == 0 ==> part == mask) by (bit_vector)
        requires
            mask & part == part,
    ;
}

/// A mask of one bit holds one card.
pub proof fn lemma_popcount_single(position: u64)
    requires
        position < 64,
    ensures
        card_count(1u64 << position) == 1,
{
    vstd::bits::lemma_u64_pow2_no_overflow(position as nat);
    vstd::bits::lemma_u64_shl_is_mul(1, position);
    lemma_popcount_split(1, position as nat, 0);
    assert(popcount(1) == 1) by {
        reveal_with_fuel(popcount, 2);
    }
}

/// A mask holds a subset of every size up to its own: the result is such a
/// subset with exactly `size` cards.
pub proof fn lemma_choose_cards(mask: u64, size: nat) -> (part: u64)
    requires
        size <= card_count(mask),
    ensures
        mask & part == part,
        card_count(part) == size,
    decreases card_count(mask),
{
    if card_count(mask) == size {
        assert(mask & mask == mask) by (bit_vector);
        mask
    } else {
        lemma_popcount_zero(mask as nat);
        let position = vstd::std_specs::bits::u64_trailing_zeros(mask) as u64;
        vstd::std_specs::bits::axiom_u64_trailing_zeros(mask);
        let lowest = 1u64 << position;
        let rest = mask & !lowest;
        assert(mask & lowest == lowest) by (bit_vector)
            requires
                position < 64,
                (mask >> position) & 1 == 1,
                lowest == 1u64 << position,
        ;
        lemma_popcount_partition(mask, lowest);
        lemma_popcount_single(position);
        let part = lemma_choose_cards(rest, size);
        assert(mask & part == part) by (bit_vector)
            requires
                rest == mask & !lowest,
                rest & part == part,
        ;
        part
    }
}

} // verus!
