//! The order between hands: which of two hands is the stronger.
//!
//! Two hands are compared category by category, from the straight flush down
//! to the high card. The first category that only one hand has, or that both
//! have with different ranks, decides. Cards that take no part in a category
//! are not compared, so two different hands can be of equal strength.

use vstd::prelude::*;
use core::cmp::Ordering;
use crate::masks::is_hand;
use crate::model::Rank;
use crate::ranker::{
    flush, flush_of, four_of, four_of_a_kind, full_house, full_house_of, high_card, high_card_of,
    pair, pair_of, straight, straight_flush_of, straight_of, three_of, three_of_a_kind, two_pair,
    two_pair_of,
};

verus! {

/// The order of two numbers.
pub open spec fn number_order(left: int, right: int) -> Ordering {
    if left < right {
        Ordering::Less
    } else if left == right {
        Ordering::Equal
    } else {
        Ordering::Greater
    }
}

/// The order of two rank numbers.
pub open spec fn index_order(left: u8, right: u8) -> Ordering {
    if left < right {
        Ordering::Less
    } else if left == right {
        Ordering::Equal
    } else {
        Ordering::Greater
    }
}

/// The first order where it decides, else the second.
pub open spec fn or_else(first: Ordering, second: Ordering) -> Ordering {
    match first {
        Ordering::Equal => second,
        _ => first,
    }
}

/// The order within a category that one rank defines: having it beats not
/// having it, and of two that have it the higher rank wins.
pub open spec fn rank_order(left: Option<Rank>, right: Option<Rank>) -> Ordering {
    match (left, right) {
        (None, None) => Ordering::Equal,
        (None, Some(_)) => Ordering::Less,
        (Some(_), None) => Ordering::Greater,
        (Some(l), Some(r)) => index_order(l.index(), r.index()),
    }
}

/// The order within a category that two ranks define: having it beats not
/// having it, and of two that have it the first ranks decide, then the
/// second.
pub open spec fn rank_pair_order(
    left: Option<(Rank, Rank)>,
    right: Option<(Rank, Rank)>,
) -> Ordering {
    match (left, right) {
        (None, None) => Ordering::Equal,
        (None, Some(_)) => Ordering::Less,
        (Some(_), None) => Ordering::Greater,
        (Some(l), Some(r)) => or_else(
            index_order(l.0.index(), r.0.index()),
            index_order(l.1.index(), r.1.index()),
        ),
    }
}

/// The order within the flush category, which has no rank: a flush beats no
/// flush.
pub open spec fn flag_order(left: bool, right: bool) -> Ordering {
    if left == right {
        Ordering::Equal
    } else if right {
        Ordering::Less
    } else {
        Ordering::Greater
    }
}

/// The order between two hands; `Greater` says that the first beats the
/// second.
pub open spec fn hand_order(hand1: u64, hand2: u64) -> Ordering {
    or_else(
        rank_order(straight_flush_of(hand1), straight_flush_of(hand2)),
        or_else(
            rank_order(four_of(hand1), four_of(hand2)),
            or_else(
                rank_pair_order(full_house_of(hand1), full_house_of(hand2)),
                or_else(
                    flag_order(flush_of(hand1), flush_of(hand2)),
                    or_else(
                        rank_order(straight_of(hand1), straight_of(hand2)),
                        or_else(
                            rank_order(three_of(hand1), three_of(hand2)),
                            or_else(
                                rank_pair_order(two_pair_of(hand1), two_pair_of(hand2)),
                                or_else(
                                    rank_order(pair_of(hand1), pair_of(hand2)),
                                    rank_order(high_card_of(hand1), high_card_of(hand2)),
                                ),
                            ),
                        ),
                    ),
                ),
            ),
        ),
    )
}

/// Whether the first hand beats the second.
pub open spec fn beats(hand1: u64, hand2: u64) -> bool {
    hand_order(hand1, hand2) == Ordering::Greater
}

/// Whether the two hands are of equal strength.
pub open spec fn ties(hand1: u64, hand2: u64) -> bool {
    hand_order(hand1, hand2) == Ordering::Equal
}

/// Compares two rank numbers.
fn compare_indices(left: u8, right: u8) -> (order: Ordering)
    ensures
        order == index_order(left, right),
{
    if left < right {
        Ordering::Less
    } else if left == right {
        Ordering::Equal
    } else {
        Ordering::Greater
    }
}

/// Compares two hands within a category that one rank defines.
fn compare_ranks(left: Option<Rank>, right: Option<Rank>) -> (order: Ordering)
    ensures
        order == rank_order(left, right),
{
    match (left, right) {
        (None, None) => Ordering::Equal,
        (None, Some(_)) => Ordering::Less,
        (Some(_), None) => Ordering::Greater,
        (Some(l), Some(r)) => compare_indices(l.index(), r.index()),
    }
}

/// Compares two hands within a category that two ranks define.
fn compare_rank_pairs(
    left: Option<(Rank, Rank)>,
    right: Option<(Rank, Rank)>,
) -> (order: Ordering)
    ensures
        order == rank_pair_order(left, right),
{
    match (left, right) {
        (None, None) => Ordering::Equal,
        (None, Some(_)) => Ordering::Less,
        (Some(_), None) => Ordering::Greater,
        (Some(l), Some(r)) => {
            match compare_indices(l.0.index(), r.0.index()) {
                Ordering::Equal => compare_indices(l.1.index(), r.1.index()),
                decided => decided,
            }
        },
    }
}

/// Compares two hands: `Greater` says that `hand1` beats `hand2`.
///
/// The categories are tried in the order straight flush, four of a kind,
/// full house, flush, straight, three of a kind, two pair, pair, high card.
/// The first category that only one hand has, or that both have with
/// different ranks, decides; where both have it with the same ranks the next
/// category is tried. The hands are equal when the high card ties too.
pub fn compare_hands(hand1: u64, hand2: u64) -> (order: Ordering)
    requires
        is_hand(hand1),
        is_hand(hand2),
    ensures
        order == hand_order(hand1, hand2),
{
    let hand1_flush = flush(hand1);
    let hand2_flush = flush(hand2);
    let hand1_straight = straight(hand1);
    let hand2_straight = straight(hand2);

    // straight flush
    let hand1_straight_flush = if hand1_flush { hand1_straight } else { None };
    let hand2_straight_flush = if hand2_flush { hand2_straight } else { None };
    match compare_ranks(hand1_straight_flush, hand2_straight_flush) {
        Ordering::Equal => {},
        decided => { return decided; },
    }

    // four of a kind
    match compare_ranks(four_of_a_kind(hand1), four_of_a_kind(hand2)) {
        Ordering::Equal => {},
        decided => { return decided; },
    }

    // full house
    match compare_rank_pairs(full_house(hand1), full_house(hand2)) {
        Ordering::Equal => {},
        decided => { return decided; },
    }

    // flush
    if hand1_flush && !hand2_flush {
        return Ordering::Greater;
    }
    if hand2_flush && !hand1_flush {
        return Ordering::Less;
    }

    // straight
    match compare_ranks(hand1_straight, hand2_straight) {
        Ordering::Equal => {},
        decided => { return decided; },
    }

    // three of a kind
    match compare_ranks(three_of_a_kind(hand1), three_of_a_kind(hand2)) {
        Ordering::Equal => {},
        decided => { return decided; },
    }

    // two pair
    match compare_rank_pairs(two_pair(hand1), two_pair(hand2)) {
        Ordering::Equal => {},
        decided => { return decided; },
    }

    // pair
    match compare_ranks(pair(hand1), pair(hand2)) {
        Ordering::Equal => {},
        decided => { return decided; },
    }

    // high card
    compare_ranks(Some(high_card(hand1)), Some(high_card(hand2)))
}

/// The number that stands for a category with one rank: 0 without it, else
/// one more than the rank's number.
pub open spec fn rank_digit(rank: Option<Rank>) -> int {
    match rank {
        Some(r) => r.index() + 1,
        None => 0,
    }
}

/// The first rank of a category with two ranks, as a digit.
pub open spec fn first_digit(ranks: Option<(Rank, Rank)>) -> int {
    match ranks {
        Some(r) => r.0.index() + 1,
        None => 0,
    }
}

/// The second rank of a category with two ranks, as a digit.
pub open spec fn second_digit(ranks: Option<(Rank, Rank)>) -> int {
    match ranks {
        Some(r) => r.1.index() + 1,
        None => 0,
    }
}

/// The flush category as a digit.
pub open spec fn flag_digit(flag: bool) -> int {
    if flag {
        1
    } else {
        0
    }
}

/// The strength of a hand as one number: its categories, from the straight
/// flush down to the high card, as the eleven digits of a number in base 16.
/// The stronger hand has the greater number.
#[verifier::opaque]
pub open spec fn strength(hand: u64) -> int {
    rank_digit(straight_flush_of(hand)) * 0x100_0000_0000
        + rank_digit(four_of(hand)) * 0x10_0000_0000
        + first_digit(full_house_of(hand)) * 0x1_0000_0000
        + second_digit(full_house_of(hand)) * 0x1000_0000
        + flag_digit(flush_of(hand)) * 0x100_0000
        + rank_digit(straight_of(hand)) * 0x10_0000
        + rank_digit(three_of(hand)) * 0x1_0000
        + first_digit(two_pair_of(hand)) * 0x1000
        + second_digit(two_pair_of(hand)) * 0x100
        + rank_digit(pair_of(hand)) * 0x10
        + rank_digit(high_card_of(hand))
}

/// A digit in base 16 stands for each category.
proof fn lemma_digits(rank: Option<Rank>, ranks: Option<(Rank, Rank)>)
    ensures
        0 <= rank_digit(rank) < 16,
        0 <= first_digit(ranks) < 16,
        0 <= second_digit(ranks) < 16,
        rank is Some <==> rank_digit(rank) > 0,
        ranks is Some <==> first_digit(ranks) > 0,
        ranks is Some <==> second_digit(ranks) > 0,
{
}

/// With tails below the weight of the leading digit, the leading digits
/// decide the order of two numbers, and the tails where they are equal.
proof fn lemma_leading_digit(lead1: int, tail1: int, lead2: int, tail2: int, weight: int)
    requires
        0 <= tail1 < weight,
        0 <= tail2 < weight,
    ensures
        number_order(lead1 * weight + tail1, lead2 * weight + tail2) == or_else(
            number_order(lead1, lead2),
            number_order(tail1, tail2),
        ),
{
    if lead1 < lead2 {
        assert(lead1 * weight + weight <= lead2 * weight) by (nonlinear_arith)
            requires
                lead1 + 1 <= lead2,
                weight > 0,
        ;
    } else if lead2 < lead1 {
        assert(lead2 * weight + weight <= lead1 * weight) by (nonlinear_arith)
            requires
                lead2 + 1 <= lead1,
                weight > 0,
        ;
    }
}

/// The order that one rank defines is the order of its digits.
proof fn lemma_rank_order_by_digit(left: Option<Rank>, right: Option<Rank>)
    ensures
        rank_order(left, right) == number_order(rank_digit(left), rank_digit(right)),
{
}

/// The order that two ranks define is the order of their first digits, then
/// of their second.
proof fn lemma_rank_pair_order_by_digits(left: Option<(Rank, Rank)>, right: Option<(Rank, Rank)>)
    ensures
        rank_pair_order(left, right) == or_else(
            number_order(first_digit(left), first_digit(right)),
            number_order(second_digit(left), second_digit(right)),
        ),
{
}

/// The order between two hands is the order between their strengths.
pub proof fn lemma_order_by_strength(hand1: u64, hand2: u64)
    ensures
        hand_order(hand1, hand2) == number_order(strength(hand1), strength(hand2)),
        0 <= strength(hand1) < 0x1000_0000_0000,
{
    reveal(strength);
    let a10 = rank_digit(straight_flush_of(hand1));
    let a9 = rank_digit(four_of(hand1));
    let a8 = first_digit(full_house_of(hand1));
    let a7 = second_digit(full_house_of(hand1));
    let a6 = flag_digit(flush_of(hand1));
    let a5 = rank_digit(straight_of(hand1));
    let a4 = rank_digit(three_of(hand1));
    let a3 = first_digit(two_pair_of(hand1));
    let a2 = second_digit(two_pair_of(hand1));
    let a1 = rank_digit(pair_of(hand1));
    let a0 = rank_digit(high_card_of(hand1));
    let b10 = rank_digit(straight_flush_of(hand2));
    let b9 = rank_digit(four_of(hand2));
    let b8 = first_digit(full_house_of(hand2));
    let b7 = second_digit(full_house_of(hand2));
    let b6 = flag_digit(flush_of(hand2));
    let b5 = rank_digit(straight_of(hand2));
    let b4 = rank_digit(three_of(hand2));
    let b3 = first_digit(two_pair_of(hand2));
    let b2 = second_digit(two_pair_of(hand2));
    let b1 = rank_digit(pair_of(hand2));
    let b0 = rank_digit(high_card_of(hand2));
    lemma_digits(straight_flush_of(hand1), full_house_of(hand1));
    lemma_digits(four_of(hand1), two_pair_of(hand1));
    lemma_digits(straight_of(hand1), None);
    lemma_digits(three_of(hand1), None);
    lemma_digits(pair_of(hand1), None);
    lemma_digits(high_card_of(hand1), None);
    lemma_digits(straight_flush_of(hand2), full_house_of(hand2));
    lemma_digits(four_of(hand2), two_pair_of(hand2));
    lemma_digits(straight_of(hand2), None);
    lemma_digits(three_of(hand2), None);
    lemma_digits(pair_of(hand2), None);
    lemma_digits(high_card_of(hand2), None);
    lemma_rank_order_by_digit(straight_flush_of(hand1), straight_flush_of(hand2));
    lemma_rank_order_by_digit(four_of(hand1), four_of(hand2));
    lemma_rank_pair_order_by_digits(full_house_of(hand1), full_house_of(hand2));
    lemma_rank_order_by_digit(straight_of(hand1), straight_of(hand2));
    lemma_rank_order_by_digit(three_of(hand1), three_of(hand2));
    lemma_rank_pair_order_by_digits(two_pair_of(hand1), two_pair_of(hand2));
    lemma_rank_order_by_digit(pair_of(hand1), pair_of(hand2));
    lemma_rank_order_by_digit(high_card_of(hand1), high_card_of(hand2));
    let s1 = a1 * 0x10 + a0;
    let t1 = b1 * 0x10 + b0;
    lemma_leading_digit(a1, a0, b1, b0, 0x10);
    let s2 = a2 * 0x100 + s1;
    let t2 = b2 * 0x100 + t1;
    lemma_leading_digit(a2, s1, b2, t1, 0x100);
    let s3 = a3 * 0x1000 + s2;
    let t3 = b3 * 0x1000 + t2;
    lemma_leading_digit(a3, s2, b3, t2, 0x1000);
    let s4 = a4 * 0x1_0000 + s3;
    let t4 = b4 * 0x1_0000 + t3;
    lemma_leading_digit(a4, s3, b4, t3, 0x1_0000);
    let s5 = a5 * 0x10_0000 + s4;
    let t5 = b5 * 0x10_0000 + t4;
    lemma_leading_digit(a5, s4, b5, t4, 0x10_0000);
    let s6 = a6 * 0x100_0000 + s5;
    let t6 = b6 * 0x100_0000 + t5;
    lemma_leading_digit(a6, s5, b6, t5, 0x100_0000);
    let s7 = a7 * 0x1000_0000 + s6;
    let t7 = b7 * 0x1000_0000 + t6;
    lemma_leading_digit(a7, s6, b7, t6, 0x1000_0000);
    let s8 = a8 * 0x1_0000_0000 + s7;
    let t8 = b8 * 0x1_0000_0000 + t7;
    lemma_leading_digit(a8, s7, b8, t7, 0x1_0000_0000);
    let s9 = a9 * 0x10_0000_0000 + s8;
    let t9 = b9 * 0x10_0000_0000 + t8;
    lemma_leading_digit(a9, s8, b9, t8, 0x10_0000_0000);
    lemma_leading_digit(a10, s9, b10, t9, 0x100_0000_0000);
    assert(strength(hand1) == a10 * 0x100_0000_0000 + s9);
    assert(strength(hand2) == b10 * 0x100_0000_0000 + t9);
    assert(flag_order(flush_of(hand1), flush_of(hand2)) == number_order(a6, b6));
}

/// The order seen from the other side.
pub open spec fn reversed(order: Ordering) -> Ordering {
    match order {
        Ordering::Less => Ordering::Greater,
        Ordering::Equal => Ordering::Equal,
        Ordering::Greater => Ordering::Less,
    }
}

/// Every hand is of equal strength to itself.
pub proof fn lemma_hand_order_reflexive(hand: u64)
    ensures
        hand_order(hand, hand) == Ordering::Equal,
{
    lemma_order_by_strength(hand, hand);
}

/// Swapping the two hands reverses the order: if the first beats the second,
/// the second loses to the first, and equal stays equal.
pub proof fn lemma_hand_order_antisymmetric(hand1: u64, hand2: u64)
    ensures
        hand_order(hand2, hand1) == reversed(hand_order(hand1, hand2)),
{
    lemma_order_by_strength(hand1, hand2);
    lemma_order_by_strength(hand2, hand1);
}

/// The order is transitive: a hand that does not lose to a second, which
/// does not lose to a third, does not lose to the third; it beats the third
/// where it beats the second or the second beats the third, and ties with it
/// where both pairs tie.
pub proof fn lemma_hand_order_transitive(hand1: u64, hand2: u64, hand3: u64)
    requires
        hand_order(hand1, hand2) != Ordering::Less,
        hand_order(hand2, hand3) != Ordering::Less,
    ensures
        hand_order(hand1, hand3) != Ordering::Less,
        beats(hand1, hand2) || beats(hand2, hand3) ==> beats(hand1, hand3),
        ties(hand1, hand2) && ties(hand2, hand3) ==> ties(hand1, hand3),
{
    lemma_order_by_strength(hand1, hand2);
    lemma_order_by_strength(hand2, hand3);
    lemma_order_by_strength(hand1, hand3);
}

/// Beating is strict: no hand beats itself, and where one hand beats or
/// ties with another, the other does not beat it.
pub proof fn lemma_beats_strict(hand1: u64, hand2: u64)
    ensures
        ties(hand1, hand1),
        !beats(hand1, hand1),
        beats(hand1, hand2) ==> !beats(hand2, hand1) && !ties(hand2, hand1),
        ties(hand1, hand2) ==> !beats(hand2, hand1) && ties(hand2, hand1),
        beats(hand1, hand2) || ties(hand1, hand2) || beats(hand2, hand1),
{
    lemma_order_by_strength(hand1, hand1);
    lemma_order_by_strength(hand1, hand2);
    lemma_order_by_strength(hand2, hand1);
}

/// The digit that stands for a category with one rank.
fn digit_of(rank: Option<Rank>) -> (digit: u64)
    ensures
        digit == rank_digit(rank),
        digit < 16,
{
    match rank {
        Some(r) => r.index() as u64 + 1,
        None => 0,
    }
}

/// The two digits that stand for a category with two ranks.
fn digits_of(ranks: Option<(Rank, Rank)>) -> (digits: (u64, u64))
    ensures
        digits.0 == first_digit(ranks),
        digits.1 == second_digit(ranks),
        digits.0 < 16,
        digits.1 < 16,
{
    match ranks {
        Some(r) => (r.0.index() as u64 + 1, r.1.index() as u64 + 1),
        None => (0, 0),
    }
}

/// The strength of a hand as one number, for comparing many hands: the hand
/// with the greater number beats the other, and hands with the same number
/// are of equal strength.
pub fn hand_strength(hand: u64) -> (key: u64)
    requires
        is_hand(hand),
    ensures
        key == strength(hand),
        key < 0x1000_0000_0000,
{
    let is_flush = flush(hand);
    let run = straight(hand);
    let house = digits_of(full_house(hand));
    let pairs = digits_of(two_pair(hand));
    let d10: u64 = digit_of(if is_flush { run } else { None });
    let d9: u64 = digit_of(four_of_a_kind(hand));
    let d6: u64 = if is_flush { 1 } else { 0 };
    let d5: u64 = digit_of(run);
    let d4: u64 = digit_of(three_of_a_kind(hand));
    let d1: u64 = digit_of(pair(hand));
    let d0: u64 = digit_of(Some(high_card(hand)));
    let upper: u64 = (((d10 * 16 + d9) * 16 + house.0) * 16 + house.1) * 16 + d6;
    let middle: u64 = ((upper * 16 + d5) * 16 + d4) * 16 + pairs.0;
    let key: u64 = ((middle * 16 + pairs.1) * 16 + d1) * 16 + d0;
    assert(key == strength(hand)) by {
        reveal(strength);
    }
    key
}

} // verus!
