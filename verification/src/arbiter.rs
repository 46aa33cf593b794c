//! The arbiter: the strongest hand that holds every card of the pile and
//! takes its other cards from the deck.

use vstd::prelude::*;
use crate::codec::{cards_mask, decodes, hand_to_cards};
use crate::masks::{
    card_count, is_hand, lemma_choose_cards, lemma_popcount_partition, lemma_popcount_subset,
    lemma_popcount_union, ALL_CARDS,
};
use crate::model::Card;
use crate::order::{beats, lemma_beats_strict};
use crate::table::is_ranking;

verus! {

/// Whether the hand can be made: each of its cards is in the deck or in the
/// pile, and it holds every card of the pile.
pub open spec fn fits(hand: u64, deck: u64, pile: u64) -> bool {
    (deck | pile) & hand == hand && pile & hand == pile
}

/// A hand that loses to none of the hands that can be made.
pub open spec fn is_best_fit(hand: u64, deck: u64, pile: u64) -> bool {
    forall|other: u64| is_hand(other) && fits(other, deck, pile) ==> !beats(other, hand)
}

/// Whether some hand can be made at all: the pile holds at most five cards,
/// all of them among the 52, and the deck and the pile together hold at
/// least five of the 52.
pub open spec fn can_complete(deck: u64, pile: u64) -> bool {
    &&& pile <= ALL_CARDS
    &&& card_count(pile) <= 5
    &&& card_count((deck | pile) & ALL_CARDS) >= 5
}

/// A hand that can be made shows that the pile can be completed.
pub proof fn lemma_fit_shows_completion(hand: u64, deck: u64, pile: u64)
    requires
        is_hand(hand),
        fits(hand, deck, pile),
    ensures
        can_complete(deck, pile),
{
    let pool = (deck | pile) & ALL_CARDS;
    assert(hand & pile == pile && pool & hand == hand && pile <= 0x000F_FFFF_FFFF_FFFFu64)
        by (bit_vector)
        requires
            (deck | pile) & hand == hand,
            pile & hand == pile,
            hand <= 0x000F_FFFF_FFFF_FFFFu64,
            pool == (deck | pile) & 0x000F_FFFF_FFFF_FFFFu64,
    ;
    lemma_popcount_subset(pile, hand);
    lemma_popcount_subset(hand, pool);
}

/// Where the pile can be completed, some hand can be made: the result is
/// one.
pub proof fn lemma_completion_has_fit(deck: u64, pile: u64) -> (hand: u64)
    requires
        can_complete(deck, pile),
    ensures
        is_hand(hand),
        fits(hand, deck, pile),
{
    let pool = (deck | pile) & ALL_CARDS;
    let spare = pool & !pile;
    assert(pool & pile == pile) by (bit_vector)
        requires
            pile <= 0x000F_FFFF_FFFF_FFFFu64,
            pool == (deck | pile) & 0x000F_FFFF_FFFF_FFFFu64,
    ;
    lemma_popcount_partition(pool, pile);
    let extra = lemma_choose_cards(spare, (5 - card_count(pile)) as nat);
    let hand = pile | extra;
    assert(pile & extra == 0 && hand <= 0x000F_FFFF_FFFF_FFFFu64 && (deck | pile) & hand == hand
        && pile & hand == pile) by (bit_vector)
        requires
            pile <= 0x000F_FFFF_FFFF_FFFFu64,
            pool == (deck | pile) & 0x000F_FFFF_FFFF_FFFFu64,
            spare == pool & !pile,
            spare & extra == extra,
            hand == pile | extra,
    ;
    lemma_popcount_union(pile, extra);
    hand
}

/// Whether the hand at index `i` is the first of the table that can be made.
pub open spec fn is_first_fit(table: Seq<u64>, deck: u64, pile: u64, i: int) -> bool {
    &&& 0 <= i < table.len()
    &&& fits(table[i], deck, pile)
    &&& forall|k: int| 0 <= k < i ==> !fits(#[trigger] table[k], deck, pile)
}

/// The first hand of the table that can be made from the deck and the pile,
/// as its five cards, lowest bit position first; `None` when no hand of the
/// table can be made.
///
/// With a ranking, where the strongest hands come first, the hand returned
/// loses to no hand that can be made, and `None` says that no hand at all
/// can be made: the pile holds more than five cards, or a card beyond the
/// 52, or the deck and the pile together hold fewer than five cards. The
/// deck and the pile need not be disjoint.
pub fn arbitrate_pile(table: &[u64], deck: u64, pile: u64) -> (result: Option<[Card; 5]>)
    requires
        forall|i: int| 0 <= i < table@.len() ==> is_hand(#[trigger] table@[i]),
    ensures
        result is Some ==> exists|i: int|
            #[trigger] is_first_fit(table@, deck, pile, i) && decodes(result->0, table@[i]),
        result is None ==> forall|i: int|
            0 <= i < table@.len() ==> !fits(#[trigger] table@[i], deck, pile),
        result is Some ==> is_hand(cards_mask(result->0)) && fits(
            cards_mask(result->0),
            deck,
            pile,
        ),
        result is Some ==> can_complete(deck, pile),
        card_count(pile) > 5 ==> result is None,
        is_ranking(table@) ==> (result is Some <==> can_complete(deck, pile)),
        is_ranking(table@) && result is Some ==> is_best_fit(cards_mask(result->0), deck, pile),
        is_ranking(table@) && result is None ==> forall|hand: u64|
            is_hand(hand) ==> !fits(hand, deck, pile),
{
    let mut i: usize = 0;
    while i < table.len()
        invariant
            i <= table@.len(),
            forall|k: int| 0 <= k < table@.len() ==> is_hand(#[trigger] table@[k]),
            forall|k: int| 0 <= k < i ==> !fits(#[trigger] table@[k], deck, pile),
        decreases table@.len() - i,
    {
        let hand = table[i];
        if (deck | pile) & hand == hand && (pile & hand) == pile {
            let cards = hand_to_cards(hand);
            proof {
                assert(is_first_fit(table@, deck, pile, i as int));
                lemma_fit_shows_completion(hand, deck, pile);
                if is_ranking(table@) {
                    assert forall|other: u64|
                        is_hand(other) && fits(other, deck, pile) implies !beats(other, hand) by {
                        let j = choose|j: int| 0 <= j < table@.len() && table@[j] == other;
                        lemma_beats_strict(hand, other);
                        if j > i {
                            assert(!beats(table@[j], table@[i as int]));
                        }
                    }
                }
            }
            return Some(cards);
        }
        i += 1;
    }
    proof {
        if is_ranking(table@) {
            assert forall|hand: u64| is_hand(hand) implies !fits(hand, deck, pile) by {
                let j = choose|j: int| 0 <= j < table@.len() && table@[j] == hand;
                assert(!fits(table@[j], deck, pile));
            }
        }
        if is_ranking(table@) && can_complete(deck, pile) {
            let hand = lemma_completion_has_fit(deck, pile);
        }
    }
    None
}

} // verus!
