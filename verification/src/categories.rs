//! The nine categories of hands, and what a hand's cards say of its
//! category.

use vstd::prelude::*;
use crate::masks::{
    card_count, is_hand, lemma_popcount_partition, lemma_popcount_single, lemma_popcount_subset,
    lemma_popcount_union, lemma_popcount_zero,
};
use crate::order::beats;
use crate::ranker::{
    flush, flush_of, four_of, four_of_a_kind, full_house, full_house_of, has_run, has_suit,
    lemma_top_rank_with_count, pair, pair_of, rank_count, rank_group, straight, straight_flush_of,
    straight_from, straight_of, suit_group, three_of, three_of_a_kind, two_pair, two_pair_of,
};

verus! {

/// The nine categories of hands, weakest first.
#[derive(Debug, Clone, Copy, PartialEq, Eq, Structural, PartialOrd, Ord, Hash)]
pub enum Category {
    HighCard,
    Pair,
    TwoPair,
    ThreeOfAKind,
    Straight,
    Flush,
    FullHouse,
    FourOfAKind,
    StraightFlush,
}

impl Category {
    /// The category's place in the order of categories: `0` for the high
    /// card up to `8` for the straight flush.
    pub open spec fn spec_index(self) -> u8 {
        match self {
            Category::HighCard => 0,
            Category::Pair => 1,
            Category::TwoPair => 2,
            Category::ThreeOfAKind => 3,
            Category::Straight => 4,
            Category::Flush => 5,
            Category::FullHouse => 6,
            Category::FourOfAKind => 7,
            Category::StraightFlush => 8,
        }
    }

    /// The category's place in the order of categories: `0` for the high
    /// card up to `8` for the straight flush.
    #[verifier::when_used_as_spec(spec_index)]
    pub fn index(self) -> (i: u8)
        ensures
            i == self.spec_index(),
            i <= 8,
    {
        match self {
            Category::HighCard => 0,
            Category::Pair => 1,
            Category::TwoPair => 2,
            Category::ThreeOfAKind => 3,
            Category::Straight => 4,
            Category::Flush => 5,
            Category::FullHouse => 6,
            Category::FourOfAKind => 7,
            Category::StraightFlush => 8,
        }
    }
}

/// The category of a hand: the highest category that it has.
pub open spec fn category_of(hand: u64) -> Category {
    if straight_flush_of(hand) is Some {
        Category::StraightFlush
    } else if four_of(hand) is Some {
        Category::FourOfAKind
    } else if full_house_of(hand) is Some {
        Category::FullHouse
    } else if flush_of(hand) {
        Category::Flush
    } else if straight_of(hand) is Some {
        Category::Straight
    } else if three_of(hand) is Some {
        Category::ThreeOfAKind
    } else if two_pair_of(hand) is Some {
        Category::TwoPair
    } else if pair_of(hand) is Some {
        Category::Pair
    } else {
        Category::HighCard
    }
}

/// Classifies a hand: the highest of the nine categories that it has.
pub fn category(hand: u64) -> (result: Category)
    requires
        is_hand(hand),
    ensures
        result == category_of(hand),
{
    let is_flush = flush(hand);
    let run = straight(hand);
    if is_flush && run.is_some() {
        Category::StraightFlush
    } else if four_of_a_kind(hand).is_some() {
        Category::FourOfAKind
    } else if full_house(hand).is_some() {
        Category::FullHouse
    } else if is_flush {
        Category::Flush
    } else if run.is_some() {
        Category::Straight
    } else if three_of_a_kind(hand).is_some() {
        Category::ThreeOfAKind
    } else if two_pair(hand).is_some() {
        Category::TwoPair
    } else if pair(hand).is_some() {
        Category::Pair
    } else {
        Category::HighCard
    }
}

/// A hand of a higher category beats a hand of a lower one.
pub proof fn lemma_higher_category_beats(hand1: u64, hand2: u64)
    requires
        category_of(hand1).index() > category_of(hand2).index(),
    ensures
        beats(hand1, hand2),
{
}

/// The cards of a hand outside a part of it: a rank that has no card in the
/// part has at most as many cards as the hand has outside the part.
proof fn lemma_count_outside(hand: u64, part: u64, rank: u8)
    requires
        rank < 13,
        part & rank_group(rank) == 0,
    ensures
        rank_count(hand, rank) + card_count(hand & part) <= card_count(hand),
{
    let group = rank_group(rank);
    lemma_popcount_partition(hand, part);
    assert((hand & !part) & (hand & group) == hand & group) by (bit_vector)
        requires
            part & group == 0,
    ;
    lemma_popcount_subset(hand & group, hand & !part);
}

/// The cards of two ranks, counted together.
proof fn lemma_count_two_ranks(hand: u64, first: u8, second: u8)
    requires
        first < 13,
        second < 13,
        first != second,
    ensures
        card_count(hand & (rank_group(first) | rank_group(second))) == rank_count(
            hand,
            first,
        ) + rank_count(hand, second),
{
    let one = hand & rank_group(first);
    let other = hand & rank_group(second);
    assert(one & other == 0 && one | other == hand & (rank_group(first) | rank_group(second)))
        by (bit_vector)
        requires
            first < 13,
            second < 13,
            first != second,
            one == hand & rank_group(first),
            other == hand & rank_group(second),
    ;
    lemma_popcount_union(one, other);
}

/// Two ranks hold no more cards than the hand has.
proof fn lemma_beside_rank(hand: u64, rank: u8, other: u8)
    requires
        rank < 13,
        other < 13,
        other != rank,
    ensures
        rank_count(hand, rank) + rank_count(hand, other) <= card_count(hand),
{
    assert(rank_group(rank) & rank_group(other) == 0) by (bit_vector)
        requires
            rank < 13,
            other < 13,
            other != rank,
    ;
    lemma_count_outside(hand, rank_group(rank), other);
}

/// Three ranks hold no more cards than the hand has.
proof fn lemma_beside_two_ranks(hand: u64, first: u8, second: u8, other: u8)
    requires
        first < 13,
        second < 13,
        other < 13,
        first != second,
        other != first,
        other != second,
    ensures
        rank_count(hand, first) + rank_count(hand, second) + rank_count(hand, other)
            <= card_count(hand),
{
    assert((rank_group(first) | rank_group(second)) & rank_group(other) == 0) by (bit_vector)
        requires
            first < 13,
            second < 13,
            other < 13,
            other != first,
            other != second,
    ;
    lemma_count_two_ranks(hand, first, second);
    lemma_count_outside(hand, rank_group(first) | rank_group(second), other);
}

/// A flush has at most one card of each rank.
proof fn lemma_flush_rank(hand: u64, rank: u8)
    requires
        flush_of(hand),
        rank < 13,
    ensures
        rank_count(hand, rank) <= 1,
{
    let suit: u8 = if has_suit(hand, 0) {
        0
    } else if has_suit(hand, 1) {
        1
    } else if has_suit(hand, 2) {
        2
    } else {
        3
    };
    let position: u64 = (rank * 4 + suit) as u64;
    let card = 1u64 << position;
    let held = hand & rank_group(rank);
    assert(card & held == held) by (bit_vector)
        requires
            rank < 13,
            suit < 4,
            position == rank * 4 + suit,
            card == 1u64 << position,
            held == hand & rank_group(rank),
            suit == 0 || hand & suit_group(0) == 0,
            suit == 1 || hand & suit_group(1) == 0,
            suit == 2 || hand & suit_group(2) == 0,
            suit == 3 || hand & suit_group(3) == 0,
    ;
    lemma_popcount_subset(held, card);
    lemma_popcount_single(position);
}

/// A hand with a card of each of five ranks has one card of each of them and
/// none of any other rank.
proof fn lemma_beside_run(hand: u64, low: u8, other: u8)
    requires
        is_hand(hand),
        low < 9,
        other < 13,
        has_run(hand, low),
    ensures
        rank_count(hand, other) <= 1,
{
    let r0 = low;
    let r1 = (low + 1) as u8;
    let r2 = (low + 2) as u8;
    let r3 = (low + 3) as u8;
    let r4 = (low + 4) as u8;
    let c0 = hand & rank_group(r0);
    let c1 = hand & rank_group(r1);
    let c2 = hand & rank_group(r2);
    let c3 = hand & rank_group(r3);
    let c4 = hand & rank_group(r4);
    let run: u64 = 0xF_FFFFu64 << (low * 4);
    assert((c0 | c1) & c2 == 0 && (c0 | c1 | c2) & c3 == 0 && (c0 | c1 | c2 | c3) & c4 == 0 && c0
        & c1 == 0 && c0 | c1 | c2 | c3 | c4 == hand & run) by (bit_vector)
        requires
            low < 9,
            r1 == low + 1,
            r2 == low + 2,
            r3 == low + 3,
            r4 == low + 4,
            c0 == hand & rank_group(low),
            c1 == hand & rank_group(r1),
            c2 == hand & rank_group(r2),
            c3 == hand & rank_group(r3),
            c4 == hand & rank_group(r4),
            run == 0xF_FFFFu64 << (low * 4),
    ;
    lemma_popcount_union(c0, c1);
    lemma_popcount_union(c0 | c1, c2);
    lemma_popcount_union(c0 | c1 | c2, c3);
    lemma_popcount_union(c0 | c1 | c2 | c3, c4);
    lemma_popcount_zero(c0 as nat);
    lemma_popcount_zero(c1 as nat);
    lemma_popcount_zero(c2 as nat);
    lemma_popcount_zero(c3 as nat);
    lemma_popcount_zero(c4 as nat);
    lemma_popcount_partition(hand, run);
    if other < low || other > low + 4 {
        assert(run & rank_group(other) == 0) by (bit_vector)
            requires
                low < 9,
                other < 13,
                other < low || other > low + 4,
                run == 0xF_FFFFu64 << (low * 4),
        ;
        lemma_count_outside(hand, run, other);
    }
}

/// A straight leaves no room for two cards of one rank.
proof fn lemma_straight_excludes(hand: u64, low: u8)
    requires
        is_hand(hand),
        low <= 9,
        straight_from(hand, low) is Some,
    ensures
        forall|rank: u8| rank < 13 ==> rank_count(hand, rank) <= 1,
    decreases 9 - low,
{
    if low < 9 {
        if has_run(hand, low) {
            assert forall|rank: u8| rank < 13 implies rank_count(hand, rank) <= 1 by {
                lemma_beside_run(hand, low, rank);
            }
        } else {
            lemma_straight_excludes(hand, (low + 1) as u8);
        }
    }
}

/// What the cards of a hand say of its category: the nine categories as
/// they are commonly understood. A hand with four cards of one rank is no
/// straight flush, a full house has no four of a kind, a flush or a straight
/// has no two cards of one rank, and so on down to the high card.
pub proof fn lemma_category_of_hand(hand: u64)
    requires
        is_hand(hand),
    ensures
        category_of(hand) == Category::StraightFlush <==> flush_of(hand) && straight_of(hand)
            is Some,
        category_of(hand) == Category::FourOfAKind <==> four_of(hand) is Some,
        category_of(hand) == Category::FullHouse <==> three_of(hand) is Some && pair_of(hand)
            is Some,
        category_of(hand) == Category::Flush <==> flush_of(hand) && straight_of(hand) is None,
        category_of(hand) == Category::Straight <==> straight_of(hand) is Some && !flush_of(hand),
        category_of(hand) == Category::ThreeOfAKind <==> three_of(hand) is Some && pair_of(hand)
            is None,
        category_of(hand) == Category::TwoPair <==> two_pair_of(hand) is Some,
        category_of(hand) == Category::Pair <==> pair_of(hand) is Some && three_of(hand) is None
            && two_pair_of(hand) is None,
        category_of(hand) == Category::HighCard <==> !flush_of(hand) && straight_of(hand) is None
            && four_of(hand) is None && three_of(hand) is None && pair_of(hand) is None,
{
    lemma_top_rank_with_count(hand, 4, 13);
    lemma_top_rank_with_count(hand, 3, 13);
    lemma_top_rank_with_count(hand, 2, 13);
    if straight_of(hand) is Some {
        lemma_straight_excludes(hand, 0);
    }
    if flush_of(hand) {
        assert forall|rank: u8| rank < 13 implies rank_count(hand, rank) <= 1 by {
            lemma_flush_rank(hand, rank);
        }
    }
    if four_of(hand) is Some {
        let four = four_of(hand)->0.index();
        if three_of(hand) is Some {
            lemma_beside_rank(hand, four, three_of(hand)->0.index());
        }
        if pair_of(hand) is Some {
            lemma_beside_rank(hand, four, pair_of(hand)->0.index());
        }
    }
    if two_pair_of(hand) is Some {
        let pairs = two_pair_of(hand)->0;
        let high = pairs.0.index();
        let low = pairs.1.index();
        lemma_top_rank_with_count(hand, 2, high);
        if three_of(hand) is Some {
            lemma_beside_two_ranks(hand, high, low, three_of(hand)->0.index());
        }
    }
}

/// Four of a kind beats every full house.
pub proof fn lemma_four_beats_full_house(four: u64, full_house: u64)
    requires
        is_hand(four),
        is_hand(full_house),
        four_of(four) is Some,
        full_house_of(full_house) is Some,
    ensures
        beats(four, full_house),
{
    lemma_category_of_hand(four);
    lemma_category_of_hand(full_house);
    lemma_higher_category_beats(four, full_house);
}

} // verus!
