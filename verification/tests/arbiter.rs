use plotto::arbiter::arbitrate_pile;
use plotto::categories::{category, Category};
use plotto::codec::card_to_bits;
use plotto::masks::is_hand_mask;
use plotto::model::{Card, Rank, Suit};
use plotto::order::compare_hands;
use plotto::table::all_hands;
use std::cmp::Ordering;

const ALL: u64 = (1 << 52) - 1;

fn mask_of(cards: &[Card; 5]) -> u64 {
    let mut mask = 0u64;
    for card in cards.iter() {
        mask |= card_to_bits(*card);
    }
    mask
}

fn bit(rank: Rank, suit: Suit) -> u64 {
    card_to_bits(Card { rank, suit })
}

/// Every hand that holds the pile and takes its cards from the deck or the
/// pile, found by trying all masks of five of the cards at hand.
fn hands_that_fit(deck: u64, pile: u64) -> Vec<u64> {
    let pool = (deck | pile) & ALL;
    let positions: Vec<u32> = (0..52).filter(|p| pool & (1u64 << p) != 0).collect();
    let n = positions.len();
    let mut hands = Vec::new();
    if n < 5 {
        return hands;
    }
    let mut pick = [0usize, 1, 2, 3, 4];
    loop {
        let mut hand = 0u64;
        for i in pick {
            hand |= 1u64 << positions[i];
        }
        if hand & pile == pile {
            hands.push(hand);
        }
        let mut at = 5;
        while at > 0 && pick[at - 1] == n - 5 + (at - 1) {
            at -= 1;
        }
        if at == 0 {
            break;
        }
        pick[at - 1] += 1;
        for next in at..5 {
            pick[next] = pick[next - 1] + 1;
        }
    }
    hands
}

fn check_against_all_hands(table: &[u64], deck: u64, pile: u64) {
    let fitting = hands_that_fit(deck, pile);
    match arbitrate_pile(table, deck, pile) {
        None => assert!(fitting.is_empty()),
        Some(cards) => {
            let hand = mask_of(&cards);
            assert!(is_hand_mask(hand));
            assert_eq!(hand & pile, pile);
            assert_eq!(hand & (deck | pile), hand);
            assert!(fitting.contains(&hand));
            for i in 1..5 {
                assert!(cards[i - 1].position() < cards[i].position());
            }
            for other in fitting.iter() {
                assert_ne!(compare_hands(*other, hand), Ordering::Greater);
            }
        },
    }
}

#[test]
fn the_hand_found_is_beaten_by_no_hand_of_a_small_deck() {
    let table = all_hands();
    let deck: u64 = (1 << 0) | (1 << 5) | (1 << 9) | (1 << 13) | (1 << 18) | (1 << 22) | (1 << 23)
        | (1 << 36) | (1 << 44) | (1 << 51);
    check_against_all_hands(&table, deck, 0);
    check_against_all_hands(&table, deck, 1 << 0);
    check_against_all_hands(&table, deck, 1 << 51);
    check_against_all_hands(&table, deck, (1 << 22) | (1 << 23));
    check_against_all_hands(&table, deck, (1 << 2) | (1 << 3));
    check_against_all_hands(&table, deck, (1 << 1) | (1 << 2) | (1 << 3));
    check_against_all_hands(&table, deck, (1 << 20) | (1 << 21) | (1 << 40) | (1 << 41));
    check_against_all_hands(&table, deck, (1 << 4) | (1 << 8) | (1 << 12) | (1 << 16) | (1 << 20));
    let straight_deck: u64 = (1 << 1) | (1 << 6) | (1 << 8) | (1 << 15) | (1 << 17) | (1 << 21)
        | (1 << 30) | (1 << 31) | (1 << 45) | (1 << 49);
    check_against_all_hands(&table, straight_deck, 0);
    check_against_all_hands(&table, straight_deck, 1 << 30);
    check_against_all_hands(&table, straight_deck, (1 << 45) | (1 << 49));
}

#[test]
fn the_result_holds_the_pile_and_comes_from_deck_and_pile() {
    let table = all_hands();
    let mut state = 0x9E37_79B9_7F4A_7C15u64;
    for _ in 0..40 {
        state = state.wrapping_mul(6364136223846793005).wrapping_add(1442695040888963407);
        let mut deck = (state >> 11) & ALL;
        let mut pile = 0u64;
        state = state.wrapping_mul(6364136223846793005).wrapping_add(1442695040888963407);
        let count = (state >> 60) % 5;
        for _ in 0..count {
            state = state.wrapping_mul(6364136223846793005).wrapping_add(1442695040888963407);
            let card = 1u64 << ((state >> 33) % 52);
            pile |= card;
            deck &= !card;
        }
        match arbitrate_pile(&table, deck, pile) {
            Some(cards) => {
                let hand = mask_of(&cards);
                assert!(is_hand_mask(hand));
                assert_eq!(hand & pile, pile);
                assert_eq!(hand & (deck | pile), hand);
            },
            None => assert!(((deck | pile) & ALL).count_ones() < 5),
        }
    }
}

#[test]
fn a_pile_of_more_than_five_cards_has_no_answer() {
    let table = all_hands();
    assert!(arbitrate_pile(&table, ALL, 0b111111).is_none());
    assert!(arbitrate_pile(&table, 0, 0b111111).is_none());
    assert!(arbitrate_pile(&table, ALL, ALL).is_none());
    assert!(arbitrate_pile(&table, ALL, (1 << 51) | (1 << 40) | (1 << 30) | 0b1011).is_none());
}

#[test]
fn fewer_than_five_cards_have_no_answer() {
    let table = all_hands();
    assert!(arbitrate_pile(&table, 0, 0).is_none());
    assert!(arbitrate_pile(&table, 0b1111, 0).is_none());
    assert!(arbitrate_pile(&table, 0b11, 0b1100).is_none());
    assert!(arbitrate_pile(&table, 1 << 52, 0b1111).is_none());
    assert!(arbitrate_pile(&table, 0b1111, 0b1111).is_none());
}

#[test]
fn a_pile_card_beyond_the_52_has_no_answer() {
    let table = all_hands();
    assert!(arbitrate_pile(&table, ALL, 1 << 52).is_none());
    assert!(arbitrate_pile(&table, ALL, (1 << 63) | 1).is_none());
}

#[test]
fn a_pile_of_five_cards_is_the_answer() {
    let table = all_hands();
    let pile = (1u64 << 3) | (1 << 17) | (1 << 18) | (1 << 29) | (1 << 50);
    let cards = arbitrate_pile(&table, 0, pile).unwrap();
    assert_eq!(mask_of(&cards), pile);
    let cards = arbitrate_pile(&table, ALL, pile).unwrap();
    assert_eq!(mask_of(&cards), pile);
    assert_eq!(
        cards,
        [
            Card { rank: Rank::Two, suit: Suit::Spades },
            Card { rank: Rank::Six, suit: Suit::Diamonds },
            Card { rank: Rank::Six, suit: Suit::Clubs },
            Card { rank: Rank::Nine, suit: Suit::Diamonds },
            Card { rank: Rank::Ace, suit: Suit::Clubs },
        ]
    );
}

#[test]
fn the_whole_deck_gives_the_first_royal_flush() {
    let table = all_hands();
    let cards = arbitrate_pile(&table, ALL, 0).unwrap();
    assert_eq!(
        cards,
        [
            Card { rank: Rank::Ten, suit: Suit::Hearts },
            Card { rank: Rank::Jack, suit: Suit::Hearts },
            Card { rank: Rank::Queen, suit: Suit::Hearts },
            Card { rank: Rank::King, suit: Suit::Hearts },
            Card { rank: Rank::Ace, suit: Suit::Hearts },
        ]
    );
    let cards = arbitrate_pile(&table, ALL, bit(Rank::King, Suit::Clubs)).unwrap();
    assert_eq!(mask_of(&cards), 0x4_4444_0000_0000);
}

#[test]
fn deck_and_pile_may_overlap() {
    let table = all_hands();
    let pile = bit(Rank::Ace, Suit::Spades) | bit(Rank::Ace, Suit::Hearts);
    let deck = pile | bit(Rank::Ace, Suit::Clubs) | bit(Rank::Two, Suit::Clubs)
        | bit(Rank::Two, Suit::Hearts) | bit(Rank::Seven, Suit::Hearts);
    let cards = arbitrate_pile(&table, deck, pile).unwrap();
    let hand = mask_of(&cards);
    assert_eq!(category(hand), Category::FullHouse);
    assert_eq!(
        hand,
        pile | bit(Rank::Ace, Suit::Clubs) | bit(Rank::Two, Suit::Clubs)
            | bit(Rank::Two, Suit::Hearts)
    );
}

#[test]
fn the_first_hand_of_a_short_table_that_fits_is_taken() {
    let table = [0b11111u64, 0b101111, 0b1001111, 0b1101101, 0b1110101];
    let deck = 0b1111111;
    assert_eq!(mask_of(&arbitrate_pile(&table, deck, 0).unwrap()), 0b11111);
    assert_eq!(mask_of(&arbitrate_pile(&table, deck, 0b100000).unwrap()), 0b101111);
    assert_eq!(mask_of(&arbitrate_pile(&table, deck, 0b1000000).unwrap()), 0b1001111);
    assert_eq!(mask_of(&arbitrate_pile(&table, deck, 0b1100000).unwrap()), 0b1101101);
    assert_eq!(mask_of(&arbitrate_pile(&table, 0b1110101, 0).unwrap()), 0b1110101);
    assert!(arbitrate_pile(&table, deck, 0b10000000).is_none());
    assert!(arbitrate_pile(&table, 0b1111, 0).is_none());
    let empty: [u64; 0] = [];
    assert!(arbitrate_pile(&empty, ALL, 0).is_none());
}

#[test]
fn with_the_ace_of_spades_and_no_high_spades_four_aces_are_best() {
    let table = all_hands();
    let removed = bit(Rank::King, Suit::Spades) | bit(Rank::Queen, Suit::Spades)
        | bit(Rank::Jack, Suit::Spades) | bit(Rank::Ten, Suit::Spades);
    let pile = bit(Rank::Ace, Suit::Spades);
    let deck = ALL & !removed & !pile;
    let cards = arbitrate_pile(&table, deck, pile).unwrap();
    let hand = mask_of(&cards);
    assert_eq!(hand & pile, pile);
    assert_eq!(hand & removed, 0);
    let mut best = Category::HighCard;
    for other in hands_that_fit(deck, pile) {
        let found = category(other);
        if found > best {
            best = found;
        }
        assert_ne!(compare_hands(other, hand), Ordering::Greater);
    }
    assert_eq!(best, Category::FourOfAKind);
    assert_eq!(category(hand), best);
    assert_eq!(hand, (0b1111u64 << 48) | bit(Rank::Two, Suit::Hearts));
}

#[test]
fn with_the_ace_of_spades_and_its_run_a_straight_flush_is_best() {
    let table = all_hands();
    let removed = bit(Rank::Ace, Suit::Hearts) | bit(Rank::Ace, Suit::Clubs)
        | bit(Rank::Ace, Suit::Diamonds) | bit(Rank::Two, Suit::Spades);
    let pile = bit(Rank::Ace, Suit::Spades);
    let deck = ALL & !removed & !pile;
    let cards = arbitrate_pile(&table, deck, pile).unwrap();
    let hand = mask_of(&cards);
    let mut best = Category::HighCard;
    for other in hands_that_fit(deck, pile) {
        let found = category(other);
        if found > best {
            best = found;
        }
    }
    assert_eq!(best, Category::StraightFlush);
    assert_eq!(category(hand), best);
    assert_eq!(hand, 0x8_8888_0000_0000);
}
