//! The card codec: between the bits of a mask and cards.

use vstd::prelude::*;
use vstd::std_specs::bits::{axiom_u64_trailing_zeros, u64_trailing_zeros};
use crate::masks::{
    card_count, has_card, is_hand, lemma_popcount_partition, lemma_popcount_single,
    lemma_popcount_union,
    lemma_popcount_zero, ALL_CARDS,
};
use crate::model::Card;

verus! {

/// The mask that holds one card and nothing else.
pub open spec fn card_bit(card: Card) -> u64 {
    1u64 << card.position()
}

/// The mask that holds the five cards.
pub open spec fn cards_mask(cards: [Card; 5]) -> u64 {
    card_bit(cards[0]) | card_bit(cards[1]) | card_bit(cards[2]) | card_bit(cards[3]) | card_bit(
        cards[4],
    )
}

/// Whether the five cards are the cards of the hand, lowest bit position
/// first.
pub open spec fn decodes(cards: [Card; 5], hand: u64) -> bool {
    &&& cards_mask(cards) == hand
    &&& forall|i: int, j: int| 0 <= i < j < 5 ==> cards[i].position() < cards[j].position()
}

/// The lowest card of a mask that holds one of the 52 cards: it is one of
/// the 52, the mask holds it, and it holds no card below it.
proof fn lemma_lowest_card(mask: u64)
    requires
        mask & ALL_CARDS != 0,
    ensures
        u64_trailing_zeros(mask) < 52,
        has_card(mask, u64_trailing_zeros(mask) as u64),
        forall|below: u64| below < u64_trailing_zeros(mask) ==> !has_card(mask, below),
{
    axiom_u64_trailing_zeros(mask);
    let lowest = u64_trailing_zeros(mask) as u64;
    let bound: u64 = (64 - lowest) as u64;
    assert(lowest < 52) by (bit_vector)
        requires
            lowest <= 64,
            bound == 64 - lowest,
            mask << bound == 0,
            mask & 0x000F_FFFF_FFFF_FFFFu64 != 0,
    ;
}

/// The card of the lowest set bit of `bits`. That bit must be one of the low
/// 52: a mask without such a bit, or whose lowest bit lies above them, names
/// no card.
pub fn bits_to_card(bits: u64) -> (card: Card)
    requires
        bits & ALL_CARDS != 0,
    ensures
        card.position() == u64_trailing_zeros(bits),
        card == Card::spec_from_position(u64_trailing_zeros(bits) as u8),
        has_card(bits, card.position() as u64),
        forall|below: u64| below < card.position() ==> !has_card(bits, below),
{
    proof {
        lemma_lowest_card(bits);
    }
    let bit_index = bits.trailing_zeros() as u8;
    Card::from_position(bit_index)
}

/// The mask of the single card at a position: it holds that card, which is
/// its lowest, and no other.
proof fn lemma_single_card(position: u64)
    requires
        position < 52,
    ensures
        (1u64 << position) & ALL_CARDS != 0,
        (1u64 << position) <= ALL_CARDS,
        u64_trailing_zeros(1u64 << position) == position,
        card_count(1u64 << position) == 1,
{
    let bit = 1u64 << position;
    axiom_u64_trailing_zeros(bit);
    let zeros = u64_trailing_zeros(bit) as u64;
    assert(bit & 0x000F_FFFF_FFFF_FFFFu64 != 0 && bit <= 0x000F_FFFF_FFFF_FFFFu64 && (zeros < 64
        && (bit >> zeros) & 1 == 1 ==> zeros == position)) by (bit_vector)
        requires
            bit == 1u64 << position,
            position < 52,
    ;
    lemma_popcount_single(position);
}

/// Five different cards make a hand.
pub proof fn lemma_five_cards_are_a_hand(cards: [Card; 5])
    requires
        forall|i: int, j: int| 0 <= i < j < 5 ==> cards[i].position() != cards[j].position(),
    ensures
        is_hand(cards_mask(cards)),
{
    let at0 = cards[0].position() as u64;
    let at1 = cards[1].position() as u64;
    let at2 = cards[2].position() as u64;
    let at3 = cards[3].position() as u64;
    let at4 = cards[4].position() as u64;
    let bit0 = 1u64 << at0;
    let bit1 = 1u64 << at1;
    let bit2 = 1u64 << at2;
    let bit3 = 1u64 << at3;
    let bit4 = 1u64 << at4;
    assert(bit0 & bit1 == 0 && (bit0 | bit1) & bit2 == 0 && (bit0 | bit1 | bit2) & bit3 == 0
        && (bit0 | bit1 | bit2 | bit3) & bit4 == 0 && (bit0 | bit1 | bit2 | bit3 | bit4)
        <= 0x000F_FFFF_FFFF_FFFFu64) by (bit_vector)
        requires
            bit0 == 1u64 << at0,
            bit1 == 1u64 << at1,
            bit2 == 1u64 << at2,
            bit3 == 1u64 << at3,
            bit4 == 1u64 << at4,
            at0 < 52,
            at1 < 52,
            at2 < 52,
            at3 < 52,
            at4 < 52,
            at0 != at1 && at0 != at2 && at0 != at3 && at0 != at4,
            at1 != at2 && at1 != at3 && at1 != at4,
            at2 != at3 && at2 != at4,
            at3 != at4,
    ;
    lemma_popcount_single(at0);
    lemma_popcount_single(at1);
    lemma_popcount_single(at2);
    lemma_popcount_single(at3);
    lemma_popcount_single(at4);
    lemma_popcount_union(bit0, bit1);
    lemma_popcount_union(bit0 | bit1, bit2);
    lemma_popcount_union(bit0 | bit1 | bit2, bit3);
    lemma_popcount_union(bit0 | bit1 | bit2 | bit3, bit4);
}

/// The mask that holds the card and nothing else: the inverse of
/// [`bits_to_card`].
pub fn card_to_bits(card: Card) -> (bits: u64)
    ensures
        bits == card_bit(card),
        bits & ALL_CARDS != 0,
        u64_trailing_zeros(bits) == card.position(),
        card_count(bits) == 1,
        bits <= ALL_CARDS,
{
    proof {
        lemma_single_card(card.position() as u64);
    }
    1u64 << card.position()
}

/// Takes the lowest card out of a mask: the card, and the mask without it.
fn take_lowest(mask: u64) -> (taken: (Card, u64))
    requires
        mask != 0,
        mask <= ALL_CARDS,
    ensures
        taken.0.position() == u64_trailing_zeros(mask),
        taken.1 & card_bit(taken.0) == 0,
        taken.1 | card_bit(taken.0) == mask,
        taken.1 <= ALL_CARDS,
        card_count(taken.1) + 1 == card_count(mask),
        taken.1 != 0 ==> u64_trailing_zeros(taken.1) > u64_trailing_zeros(mask),
{
    let lowest = mask.trailing_zeros();
    proof {
        assert(mask & 0x000F_FFFF_FFFF_FFFFu64 != 0) by (bit_vector)
            requires
                mask != 0,
                mask <= 0x000F_FFFF_FFFF_FFFFu64,
        ;
        lemma_lowest_card(mask);
        lemma_single_card(lowest as u64);
    }
    let bit = 1u64 << lowest;
    let card = bits_to_card(bit);
    let rest = mask & !bit;
    proof {
        axiom_u64_trailing_zeros(mask);
        axiom_u64_trailing_zeros(rest);
        let lowest_of_rest = u64_trailing_zeros(rest) as u64;
        let bound: u64 = (64 - lowest) as u64;
        assert(mask & bit == bit && rest & bit == 0 && rest | bit == mask && rest
            <= 0x000F_FFFF_FFFF_FFFFu64 && (lowest_of_rest < 64 && (rest >> lowest_of_rest) & 1
            == 1 ==> lowest_of_rest > lowest)) by (bit_vector)
            requires
                bit == 1u64 << lowest,
                rest == mask & !bit,
                lowest < 52,
                (mask >> lowest) & 1 == 1,
                mask <= 0x000F_FFFF_FFFF_FFFFu64,
                bound == 64 - lowest,
                mask << bound == 0,
        ;
        lemma_popcount_partition(mask, bit);
    }
    (card, rest)
}

/// The five cards of a hand, lowest bit position first.
pub fn hand_to_cards(hand: u64) -> (cards: [Card; 5])
    requires
        is_hand(hand),
    ensures
        decodes(cards, hand),
        forall|i: int| 0 <= i < 5 ==> has_card(hand, #[trigger] cards[i].position() as u64),
{
    proof {
        lemma_popcount_zero(hand as nat);
    }
    let (first, rest1) = take_lowest(hand);
    proof {
        lemma_popcount_zero(rest1 as nat);
    }
    let (second, rest2) = take_lowest(rest1);
    proof {
        lemma_popcount_zero(rest2 as nat);
    }
    let (third, rest3) = take_lowest(rest2);
    proof {
        lemma_popcount_zero(rest3 as nat);
    }
    let (fourth, rest4) = take_lowest(rest3);
    proof {
        lemma_popcount_zero(rest4 as nat);
    }
    let (fifth, rest5) = take_lowest(rest4);
    proof {
        lemma_popcount_zero(rest5 as nat);
        let at1 = first.position() as u64;
        let at2 = second.position() as u64;
        let at3 = third.position() as u64;
        let at4 = fourth.position() as u64;
        let at5 = fifth.position() as u64;
        assert((1u64 << at1) | (1u64 << at2) | (1u64 << at3) | (1u64 << at4) | (1u64 << at5)
            == hand && (hand >> at1) & 1 == 1 && (hand >> at2) & 1 == 1 && (hand >> at3) & 1 == 1
            && (hand >> at4) & 1 == 1 && (hand >> at5) & 1 == 1) by (bit_vector)
            requires
                rest1 | (1u64 << at1) == hand,
                rest2 | (1u64 << at2) == rest1,
                rest3 | (1u64 << at3) == rest2,
                rest4 | (1u64 << at4) == rest3,
                0 | (1u64 << at5) == rest4,
                at1 < 52,
                at2 < 52,
                at3 < 52,
                at4 < 52,
                at5 < 52,
        ;
    }
    [first, second, third, fourth, fifth]
}

} // verus!
