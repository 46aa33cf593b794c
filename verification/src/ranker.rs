//! The category detectors: what a hand holds of each category, and with
//! which ranks.

use vstd::prelude::*;
use crate::masks::{card_count, is_hand, lemma_popcount_zero, popcount};
use crate::model::Rank;

verus! {

/// The four cards of the lowest rank.
pub const RANK_MASK: u64 = 0b1111;

/// The thirteen cards of the first suit.
pub const SUIT_MASK: u64 = 0b0001_0001_0001_0001_0001_0001_0001_0001_0001_0001_0001_0001_0001;

/// The four cards of a rank, as a mask.
pub open spec fn rank_group(rank: u8) -> u64 {
    RANK_MASK << (rank * 4)
}

/// The thirteen cards of a suit, as a mask.
pub open spec fn suit_group(suit: u8) -> u64 {
    SUIT_MASK << suit
}

/// How many cards of a rank the mask holds.
pub open spec fn rank_count(hand: u64, rank: u8) -> nat {
    card_count(hand & rank_group(rank))
}

/// Whether the mask holds a card of the rank.
pub open spec fn has_rank(hand: u64, rank: u8) -> bool {
    hand & rank_group(rank) != 0
}

/// Whether the mask holds a card of the suit.
pub open spec fn has_suit(hand: u64, suit: u8) -> bool {
    hand & suit_group(suit) != 0
}

/// The highest rank below `limit` of which the mask holds exactly `count`
/// cards.
pub open spec fn top_rank_with_count(hand: u64, count: nat, limit: u8) -> Option<Rank>
    decreases limit,
{
    if limit == 0 || limit > 13 {
        None
    } else if rank_count(hand, (limit - 1) as u8) == count {
        Rank::spec_from_index((limit - 1) as u8)
    } else {
        top_rank_with_count(hand, count, (limit - 1) as u8)
    }
}

/// Whether `found` is the highest rank below `limit` of which the mask holds
/// exactly `count` cards: such a rank, with no other above it; or nothing,
/// where no rank below the limit has that count.
pub open spec fn is_top_rank_with_count(
    hand: u64,
    count: nat,
    limit: u8,
    found: Option<Rank>,
) -> bool {
    match found {
        Some(rank) => {
            &&& rank.index() < limit
            &&& rank_count(hand, rank.index()) == count
            &&& forall|other: u8| rank.index() < other < limit ==> rank_count(hand, other) != count
        },
        None => forall|other: u8| other < limit ==> rank_count(hand, other) != count,
    }
}

/// The rank of which the hand holds all four cards.
pub open spec fn four_of(hand: u64) -> Option<Rank> {
    top_rank_with_count(hand, 4, 13)
}

/// The highest rank of which the hand holds exactly three cards.
pub open spec fn three_of(hand: u64) -> Option<Rank> {
    top_rank_with_count(hand, 3, 13)
}

/// The highest rank of which the hand holds exactly two cards.
pub open spec fn pair_of(hand: u64) -> Option<Rank> {
    top_rank_with_count(hand, 2, 13)
}

/// The two highest ranks of which the hand holds exactly two cards, the
/// higher first.
pub open spec fn two_pair_of(hand: u64) -> Option<(Rank, Rank)> {
    match pair_of(hand) {
        Some(high) => match top_rank_with_count(hand, 2, high.index()) {
            Some(low) => Some((high, low)),
            None => None,
        },
        None => None,
    }
}

/// The rank of the three and the rank of the two, where the hand has both.
pub open spec fn full_house_of(hand: u64) -> Option<(Rank, Rank)> {
    match (three_of(hand), pair_of(hand)) {
        (Some(triple), Some(pair)) => Some((triple, pair)),
        _ => None,
    }
}

/// In how many of the four suits the mask holds a card.
pub open spec fn suit_count(hand: u64) -> nat {
    (if has_suit(hand, 0) { 1nat } else { 0 })
        + (if has_suit(hand, 1) { 1nat } else { 0 })
        + (if has_suit(hand, 2) { 1nat } else { 0 })
        + (if has_suit(hand, 3) { 1nat } else { 0 })
}

/// A flush: the cards are of exactly one suit.
pub open spec fn flush_of(hand: u64) -> bool {
    suit_count(hand) == 1
}

/// Whether the mask holds a card of each of the five ranks from `low` up.
pub open spec fn has_run(hand: u64, low: u8) -> bool {
    &&& has_rank(hand, low)
    &&& has_rank(hand, (low + 1) as u8)
    &&& has_rank(hand, (low + 2) as u8)
    &&& has_rank(hand, (low + 3) as u8)
    &&& has_rank(hand, (low + 4) as u8)
}

/// The highest rank of the first run of five consecutive ranks, looking from
/// the run that starts at `low` upwards.
pub open spec fn straight_from(hand: u64, low: u8) -> Option<Rank>
    decreases 9 - low,
{
    if low >= 9 {
        None
    } else if has_run(hand, low) {
        Rank::spec_from_index((low + 4) as u8)
    } else {
        straight_from(hand, (low + 1) as u8)
    }
}

/// A straight: the highest rank of a run of five consecutive ranks, two to
/// six being the lowest run and ten to ace the highest. The ace does not
/// count as low.
pub open spec fn straight_of(hand: u64) -> Option<Rank> {
    straight_from(hand, 0)
}

/// Whether `found` is the top of the lowest run of five consecutive ranks in
/// the mask that starts at the rank `from` or above; or nothing, where the
/// mask has no such run.
pub open spec fn is_lowest_run_top(hand: u64, from: u8, found: Option<Rank>) -> bool {
    match found {
        Some(rank) => {
            &&& from + 4 <= rank.index()
            &&& has_run(hand, (rank.index() - 4) as u8)
            &&& forall|low: u8| from <= low && low + 4 < rank.index() ==> !has_run(hand, low)
        },
        None => forall|low: u8| from <= low < 9 ==> !has_run(hand, low),
    }
}

/// Whether `found` holds the two highest ranks of which the hand holds
/// exactly two cards, the higher first; or nothing, where fewer than two
/// ranks have two cards.
pub open spec fn is_two_highest_pairs(hand: u64, found: Option<(Rank, Rank)>) -> bool {
    match found {
        Some(ranks) => {
            &&& is_top_rank_with_count(hand, 2, 13, Some(ranks.0))
            &&& is_top_rank_with_count(hand, 2, ranks.0.index(), Some(ranks.1))
        },
        None => match pair_of(hand) {
            Some(high) => is_top_rank_with_count(hand, 2, high.index(), None),
            None => is_top_rank_with_count(hand, 2, 13, None),
        },
    }
}

/// Whether `found` holds the highest rank with three cards and the highest
/// rank with two; or nothing, where the hand lacks one of them.
pub open spec fn is_three_and_pair(hand: u64, found: Option<(Rank, Rank)>) -> bool {
    match found {
        Some(ranks) => {
            &&& is_top_rank_with_count(hand, 3, 13, Some(ranks.0))
            &&& is_top_rank_with_count(hand, 2, 13, Some(ranks.1))
        },
        None => is_top_rank_with_count(hand, 3, 13, None) || is_top_rank_with_count(
            hand,
            2,
            13,
            None,
        ),
    }
}

/// A straight flush: a straight whose cards are of one suit.
pub open spec fn straight_flush_of(hand: u64) -> Option<Rank> {
    if flush_of(hand) {
        straight_of(hand)
    } else {
        None
    }
}

/// The highest rank below `limit` of which the mask holds a card.
pub open spec fn top_rank_present(hand: u64, limit: u8) -> Option<Rank>
    decreases limit,
{
    if limit == 0 || limit > 13 {
        None
    } else if has_rank(hand, (limit - 1) as u8) {
        Rank::spec_from_index((limit - 1) as u8)
    } else {
        top_rank_present(hand, (limit - 1) as u8)
    }
}

/// Whether `found` is the highest rank below `limit` of which the mask holds
/// a card; or nothing, where it holds no card of a rank below the limit.
pub open spec fn is_top_rank_present(hand: u64, limit: u8, found: Option<Rank>) -> bool {
    match found {
        Some(rank) => {
            &&& rank.index() < limit
            &&& has_rank(hand, rank.index())
            &&& forall|other: u8| rank.index() < other < limit ==> !has_rank(hand, other)
        },
        None => forall|other: u8| other < limit ==> !has_rank(hand, other),
    }
}

/// The high card: the highest rank of which the hand holds a card.
pub open spec fn high_card_of(hand: u64) -> Option<Rank> {
    top_rank_present(hand, 13)
}

/// [`top_rank_present`] finds the highest rank that is present.
pub proof fn lemma_top_rank_present(hand: u64, limit: u8)
    requires
        limit <= 13,
    ensures
        is_top_rank_present(hand, limit, top_rank_present(hand, limit)),
    decreases limit,
{
    if limit > 0 {
        lemma_top_rank_present(hand, (limit - 1) as u8);
    }
}

/// [`straight_from`] finds the top of the lowest run that starts at `low` or
/// above.
pub proof fn lemma_straight_from(hand: u64, low: u8)
    requires
        low <= 9,
    ensures
        is_lowest_run_top(hand, low, straight_from(hand, low)),
    decreases 9 - low,
{
    if low < 9 {
        lemma_straight_from(hand, (low + 1) as u8);
    }
}

/// A mask with a card among the 52 holds a card of some rank.
pub proof fn lemma_some_rank_present(hand: u64)
    requires
        hand != 0,
        hand <= crate::masks::ALL_CARDS,
    ensures
        high_card_of(hand) is Some,
{
    lemma_top_rank_present(hand, 13);
    if high_card_of(hand) is None {
        assert(!has_rank(hand, 0) && !has_rank(hand, 1) && !has_rank(hand, 2) && !has_rank(hand, 3)
            && !has_rank(hand, 4) && !has_rank(hand, 5) && !has_rank(hand, 6) && !has_rank(hand, 7)
            && !has_rank(hand, 8) && !has_rank(hand, 9) && !has_rank(hand, 10) && !has_rank(
            hand,
            11,
        ) && !has_rank(hand, 12));
        assert(hand == 0) by (bit_vector)
            requires
                hand <= 0x000F_FFFF_FFFF_FFFFu64,
                !has_rank(hand, 0) && !has_rank(hand, 1) && !has_rank(hand, 2) && !has_rank(
                    hand,
                    3,
                ) && !has_rank(hand, 4) && !has_rank(hand, 5) && !has_rank(hand, 6) && !has_rank(
                    hand,
                    7,
                ) && !has_rank(hand, 8) && !has_rank(hand, 9) && !has_rank(hand, 10) && !has_rank(
                    hand,
                    11,
                ) && !has_rank(hand, 12),
        ;
    }
}

/// [`top_rank_with_count`] finds the highest rank with that count.
pub proof fn lemma_top_rank_with_count(hand: u64, count: nat, limit: u8)
    requires
        limit <= 13,
    ensures
        is_top_rank_with_count(hand, count, limit, top_rank_with_count(hand, count, limit)),
    decreases limit,
{
    if limit > 0 {
        lemma_top_rank_with_count(hand, count, (limit - 1) as u8);
    }
}

/// The four cards of a rank, as a mask.
fn rank_group_mask(rank: u8) -> (m: u64)
    requires
        rank < 13,
    ensures
        m == rank_group(rank),
{
    RANK_MASK << (rank * 4)
}

/// The thirteen cards of a suit, as a mask.
fn suit_group_mask(suit: u8) -> (m: u64)
    requires
        suit < 4,
    ensures
        m == suit_group(suit),
{
    SUIT_MASK << suit
}

/// Scans the ranks from the ace down for the first of which the mask holds
/// exactly `count` cards.
fn highest_rank_with_count(mask: u64, count: u32) -> (result: Option<Rank>)
    ensures
        result == top_rank_with_count(mask, count as nat, 13),
        is_top_rank_with_count(mask, count as nat, 13, result),
{
    proof {
        lemma_top_rank_with_count(mask, count as nat, 13);
    }
    let mut limit: u8 = 13;
    while limit > 0
        invariant
            limit <= 13,
            is_top_rank_with_count(
                mask,
                count as nat,
                13,
                top_rank_with_count(mask, count as nat, 13),
            ),
            top_rank_with_count(mask, count as nat, 13) == top_rank_with_count(
                mask,
                count as nat,
                limit,
            ),
        decreases limit,
    {
        let rank: u8 = limit - 1;
        if (mask & rank_group_mask(rank)).count_ones() == count {
            return Rank::from_index(rank);
        }
        limit = rank;
    }
    None
}

/// Setting bit `index` in a number below `2^index`: the bits below stay, bit
/// `index` was clear, and the number stays below `2^(index + 1)` either way.
proof fn lemma_mark_suit(before: u8, index: u8, seen: u8)
    by (bit_vector)
    requires
        seen <= index < 4,
        before < (1u8 << index),
    ensures
        ((before | (1u8 << index)) >> seen) & 1 == (if seen == index {
            1u8
        } else {
            (before >> seen) & 1
        }),
        (before >> index) & 1 == 0,
        before < (1u8 << ((index + 1) as u8)),
        (before | (1u8 << index)) < (1u8 << ((index + 1) as u8)),
{
}

/// The suits of which the mask holds a card: bit `s` of the result is set
/// exactly when a card of suit `s` is there.
fn extract_suits(hand: u64) -> (suits: u8)
    ensures
        suits < 16,
        forall|suit: u8|
            #![trigger has_suit(hand, suit)]
            #![trigger (suits >> suit) & 1]
            suit < 4 ==> ((suits >> suit) & 1 == 1 <==> has_suit(hand, suit)),
{
    let mut suits: u8 = 0;
    let mut suit: u8 = 0;
    proof {
        vstd::arithmetic::power2::lemma2_to64();
        vstd::bits::lemma_u8_shl_is_mul(1, 0);
        vstd::bits::lemma_u8_shl_is_mul(1, 4);
    }
    while suit < 4
        invariant
            suit <= 4,
            suits < (1u8 << suit),
            (1u8 << 4u8) == 16,
            forall|seen: u8|
                seen < suit ==> ((suits >> seen) & 1 == 1 <==> #[trigger] has_suit(hand, seen)),
        decreases 4 - suit,
    {
        let before = suits;
        if hand & suit_group_mask(suit) != 0 {
            suits |= 1 << suit;
        }
        proof {
            lemma_mark_suit(before, suit, suit);
            assert forall|seen: u8| seen < suit + 1 implies ((suits >> seen) & 1 == 1
                <==> #[trigger] has_suit(hand, seen)) by {
                lemma_mark_suit(before, suit, seen);
            }
        }
        suit += 1;
    }
    suits
}

/// Flush: whether the cards are of exactly one suit.
pub fn flush(hand: u64) -> (result: bool)
    requires
        is_hand(hand),
    ensures
        result == flush_of(hand),
{
    let suits = extract_suits(hand);
    proof {
        assert(((suits >> 0u8) & 1 == 1 <==> suits % 2 == 1) && ((suits >> 1u8) & 1 == 1 <==> (suits
            / 2) % 2 == 1) && ((suits >> 2u8) & 1 == 1 <==> (suits / 4) % 2 == 1) && ((suits
            >> 3u8) & 1 == 1 <==> (suits / 8) % 2 == 1)) by (bit_vector);
        reveal_with_fuel(popcount, 5);
    }
    (suits as u64).count_ones() == 1
}

/// Setting bit `index` in a number below `2^index`: the bits below stay, bit
/// `index` was clear, and the number stays below `2^(index + 1)` either way.
proof fn lemma_mark_rank(before: u16, index: u8, seen: u8)
    by (bit_vector)
    requires
        seen <= index < 13,
        before < (1u16 << index),
    ensures
        ((before | (1u16 << index)) >> seen) & 1 == (if seen == index {
            1u16
        } else {
            (before >> seen) & 1
        }),
        (before >> index) & 1 == 0,
        before < (1u16 << ((index + 1) as u8)),
        (before | (1u16 << index)) < (1u16 << ((index + 1) as u8)),
{
}

/// The ranks of which the mask holds a card: bit `r` of the result is set
/// exactly when a card of rank `r` is there.
fn extract_ranks(hand: u64) -> (ranks: u16)
    ensures
        ranks < 0x2000,
        forall|rank: u8|
            #![trigger has_rank(hand, rank)]
            #![trigger (ranks >> rank) & 1]
            rank < 13 ==> ((ranks >> rank) & 1 == 1 <==> has_rank(hand, rank)),
{
    let mut ranks: u16 = 0;
    let mut rank: u8 = 0;
    proof {
        vstd::arithmetic::power2::lemma2_to64();
        vstd::bits::lemma_u16_shl_is_mul(1, 0);
        vstd::bits::lemma_u16_shl_is_mul(1, 13);
    }
    while rank < 13
        invariant
            rank <= 13,
            ranks < (1u16 << rank),
            (1u16 << 13u16) == 0x2000,
            forall|seen: u8|
                seen < rank ==> ((ranks >> seen) & 1 == 1 <==> #[trigger] has_rank(hand, seen)),
        decreases 13 - rank,
    {
        let before = ranks;
        if hand & rank_group_mask(rank) != 0 {
            ranks |= 1 << rank;
        }
        proof {
            lemma_mark_rank(before, rank, rank);
            assert forall|seen: u8| seen < rank + 1 implies ((ranks >> seen) & 1 == 1
                <==> #[trigger] has_rank(hand, seen)) by {
                lemma_mark_rank(before, rank, seen);
            }
        }
        rank += 1;
    }
    ranks
}

/// Straight: the highest rank of a run of five consecutive ranks in the
/// hand. The runs are tried from the lowest, two to six, to the highest, ten
/// to ace; the ace does not count as low.
pub fn straight(hand: u64) -> (result: Option<Rank>)
    requires
        is_hand(hand),
    ensures
        result == straight_of(hand),
        is_lowest_run_top(hand, 0, result),
{
    proof {
        lemma_straight_from(hand, 0);
    }
    let ranks = extract_ranks(hand);
    let mut low: u8 = 0;
    while low < 9
        invariant
            low <= 9,
            is_lowest_run_top(hand, 0, straight_of(hand)),
            straight_of(hand) == straight_from(hand, low),
            forall|rank: u8|
                #![trigger has_rank(hand, rank)]
                #![trigger (ranks >> rank) & 1]
                rank < 13 ==> ((ranks >> rank) & 1 == 1 <==> has_rank(hand, rank)),
        decreases 9 - low,
    {
        let window: u16 = 0b11111 << low;
        proof {
            assert((ranks & (0b11111u16 << low) == (0b11111u16 << low)) <==> ((ranks >> low) & 1
                == 1 && (ranks >> ((low + 1) as u8)) & 1 == 1 && (ranks >> ((low + 2) as u8)) & 1
                == 1 && (ranks >> ((low + 3) as u8)) & 1 == 1 && (ranks >> ((low + 4) as u8)) & 1
                == 1))
                by (bit_vector)
                requires
                    low < 9,
            ;
        }
        if ranks & window == window {
            return Rank::from_index(low + 4);
        }
        low += 1;
    }
    None
}

/// High card: the highest rank of which the hand holds a card.
pub fn high_card(hand: u64) -> (result: Rank)
    requires
        is_hand(hand),
    ensures
        high_card_of(hand) == Some(result),
        is_top_rank_present(hand, 13, Some(result)),
{
    let ranks = extract_ranks(hand);
    proof {
        lemma_popcount_zero(hand as nat);
        lemma_some_rank_present(hand);
        lemma_top_rank_present(hand, 13);
        vstd::std_specs::bits::axiom_u16_leading_zeros(ranks);
        let high: u8 = high_card_of(hand)->0.index();
        let zeros = vstd::std_specs::bits::u16_leading_zeros(ranks);
        let top: u8 = (15 - zeros) as u8;
        assert(ranks != 0 && (top < 16 && (ranks >> top) & 1 != 0 ==> top < 13 && (ranks >> top) & 1
            == 1)) by (bit_vector)
            requires
                (ranks >> high) & 1 == 1,
                ranks < 0x2000,
        ;
    }
    let top: Option<Rank> = Rank::from_index(15u8 - ranks.leading_zeros() as u8);
    top.unwrap()
}

/// Four of a kind: the rank of which the hand holds all four cards.
pub fn four_of_a_kind(hand: u64) -> (result: Option<Rank>)
    requires
        is_hand(hand),
    ensures
        result == four_of(hand),
        is_top_rank_with_count(hand, 4, 13, result),
{
    highest_rank_with_count(hand, 4)
}

/// Three of a kind: the highest rank of which the hand holds exactly three
/// cards.
pub fn three_of_a_kind(hand: u64) -> (result: Option<Rank>)
    requires
        is_hand(hand),
    ensures
        result == three_of(hand),
        is_top_rank_with_count(hand, 3, 13, result),
{
    highest_rank_with_count(hand, 3)
}

/// Pair: the highest rank of which the hand holds exactly two cards.
pub fn pair(hand: u64) -> (result: Option<Rank>)
    requires
        is_hand(hand),
    ensures
        result == pair_of(hand),
        is_top_rank_with_count(hand, 2, 13, result),
{
    highest_rank_with_count(hand, 2)
}

/// With the cards of one rank taken out, every other rank keeps its cards.
proof fn lemma_without_rank(hand: u64, removed: u8, limit: u8)
    requires
        removed < 13,
        limit <= 13,
    ensures
        top_rank_with_count(hand & !rank_group(removed), 2, limit) == (if limit <= removed {
            top_rank_with_count(hand, 2, limit)
        } else if top_rank_with_count(hand, 2, limit) == Rank::spec_from_index(removed) {
            top_rank_with_count(hand, 2, removed)
        } else {
            top_rank_with_count(hand, 2, limit)
        }),
    decreases limit,
{
    let rest = hand & !rank_group(removed);
    if limit > 0 {
        let rank = (limit - 1) as u8;
        lemma_without_rank(hand, removed, rank);
        lemma_top_rank_with_count(hand, 2, rank);
        assert(rest & rank_group(rank) == if rank == removed {
            0
        } else {
            hand & rank_group(rank)
        }) by (bit_vector)
            requires
                rest == hand & !rank_group(removed),
                rank < 13,
                removed < 13,
        ;
    }
}

/// Two pair: the highest pair, then the highest pair among the cards of the
/// other ranks.
pub fn two_pair(hand: u64) -> (result: Option<(Rank, Rank)>)
    requires
        is_hand(hand),
    ensures
        result == two_pair_of(hand),
        is_two_highest_pairs(hand, result),
{
    let high_pair = highest_rank_with_count(hand, 2);
    match high_pair {
        None => None,
        Some(high) => {
            let rest_of_hand = hand & !rank_group_mask(high.index());
            proof {
                lemma_without_rank(hand, high.index(), 13);
                lemma_top_rank_with_count(hand, 2, high.index());
            }
            match highest_rank_with_count(rest_of_hand, 2) {
                None => None,
                Some(low) => Some((high, low)),
            }
        },
    }
}

/// Full house: the rank of the three and the rank of the pair, where the hand
/// has both.
pub fn full_house(hand: u64) -> (result: Option<(Rank, Rank)>)
    requires
        is_hand(hand),
    ensures
        result == full_house_of(hand),
        is_three_and_pair(hand, result),
{
    let three = three_of_a_kind(hand);
    let pair = pair(hand);
    match (three, pair) {
        (Some(triple), Some(two)) => Some((triple, two)),
        _ => None,
    }
}

} // verus!
