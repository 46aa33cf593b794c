use plotto::categories::category;
use plotto::masks::is_hand_mask;
use plotto::model::Rank;
use plotto::order::{compare_hands, hand_strength};
use std::cmp::Ordering;

const HEARTS: u8 = 0;
const DIAMONDS: u8 = 1;
const CLUBS: u8 = 2;
const SPADES: u8 = 3;

fn cards(cards: [(Rank, u8); 5]) -> u64 {
    let mut mask = 0u64;
    for (rank, suit) in cards {
        mask |= 1u64 << (rank.index() * 4 + suit);
    }
    assert!(is_hand_mask(mask));
    mask
}

/// One hand of each category, weakest first.
fn ladder() -> [u64; 9] {
    [
        cards([
            (Rank::Two, HEARTS),
            (Rank::Five, CLUBS),
            (Rank::Nine, SPADES),
            (Rank::Jack, HEARTS),
            (Rank::King, DIAMONDS),
        ]),
        cards([
            (Rank::Two, HEARTS),
            (Rank::Two, CLUBS),
            (Rank::Nine, SPADES),
            (Rank::Jack, HEARTS),
            (Rank::King, DIAMONDS),
        ]),
        cards([
            (Rank::Two, HEARTS),
            (Rank::Two, CLUBS),
            (Rank::Nine, SPADES),
            (Rank::Nine, HEARTS),
            (Rank::King, DIAMONDS),
        ]),
        cards([
            (Rank::Two, HEARTS),
            (Rank::Two, CLUBS),
            (Rank::Two, SPADES),
            (Rank::Nine, HEARTS),
            (Rank::King, DIAMONDS),
        ]),
        cards([
            (Rank::Two, HEARTS),
            (Rank::Three, CLUBS),
            (Rank::Four, SPADES),
            (Rank::Five, HEARTS),
            (Rank::Six, DIAMONDS),
        ]),
        cards([
            (Rank::Two, CLUBS),
            (Rank::Three, CLUBS),
            (Rank::Four, CLUBS),
            (Rank::Five, CLUBS),
            (Rank::Seven, CLUBS),
        ]),
        cards([
            (Rank::Two, HEARTS),
            (Rank::Two, CLUBS),
            (Rank::Two, SPADES),
            (Rank::Three, HEARTS),
            (Rank::Three, DIAMONDS),
        ]),
        cards([
            (Rank::Two, HEARTS),
            (Rank::Two, CLUBS),
            (Rank::Two, SPADES),
            (Rank::Two, DIAMONDS),
            (Rank::Three, DIAMONDS),
        ]),
        cards([
            (Rank::Two, SPADES),
            (Rank::Three, SPADES),
            (Rank::Four, SPADES),
            (Rank::Five, SPADES),
            (Rank::Six, SPADES),
        ]),
    ]
}

/// A sample of hands of all kinds.
fn sample() -> Vec<u64> {
    let mut hands = ladder().to_vec();
    let mut mask = 0b11111u64;
    let mut step = 0u64;
    while mask < (1 << 52) {
        if step % 50_021 == 0 {
            hands.push(mask);
        }
        let lowest = mask & mask.wrapping_neg();
        let ripple = mask + lowest;
        mask = (((ripple ^ mask) >> 2) / lowest) | ripple;
        step += 1;
    }
    hands
}

#[test]
fn a_higher_category_beats_a_lower_one() {
    let ladder = ladder();
    for i in 0..9 {
        assert_eq!(category(ladder[i]).index() as usize, i);
        for j in 0..9 {
            let expected = i.cmp(&j);
            assert_eq!(compare_hands(ladder[i], ladder[j]), expected);
        }
    }
}

#[test]
fn a_straight_beats_three_of_a_kind_and_pairs() {
    let straight = cards([
        (Rank::Two, HEARTS),
        (Rank::Three, CLUBS),
        (Rank::Four, SPADES),
        (Rank::Five, HEARTS),
        (Rank::Six, DIAMONDS),
    ]);
    let three_aces = cards([
        (Rank::Ace, HEARTS),
        (Rank::Ace, CLUBS),
        (Rank::Ace, SPADES),
        (Rank::King, HEARTS),
        (Rank::Queen, DIAMONDS),
    ]);
    let pair_of_aces = cards([
        (Rank::Ace, HEARTS),
        (Rank::Ace, CLUBS),
        (Rank::Jack, SPADES),
        (Rank::King, HEARTS),
        (Rank::Queen, DIAMONDS),
    ]);
    let ace_high = cards([
        (Rank::Ace, HEARTS),
        (Rank::Nine, CLUBS),
        (Rank::Jack, SPADES),
        (Rank::King, HEARTS),
        (Rank::Queen, DIAMONDS),
    ]);
    assert_eq!(compare_hands(straight, three_aces), Ordering::Greater);
    assert_eq!(compare_hands(three_aces, straight), Ordering::Less);
    assert_eq!(compare_hands(straight, pair_of_aces), Ordering::Greater);
    assert_eq!(compare_hands(straight, ace_high), Ordering::Greater);
}

#[test]
fn the_higher_straight_wins() {
    let six_high = cards([
        (Rank::Two, HEARTS),
        (Rank::Three, CLUBS),
        (Rank::Four, SPADES),
        (Rank::Five, HEARTS),
        (Rank::Six, DIAMONDS),
    ]);
    let ace_high = cards([
        (Rank::Ten, HEARTS),
        (Rank::Jack, CLUBS),
        (Rank::Queen, SPADES),
        (Rank::King, HEARTS),
        (Rank::Ace, DIAMONDS),
    ]);
    assert_eq!(compare_hands(ace_high, six_high), Ordering::Greater);
    assert_eq!(compare_hands(six_high, ace_high), Ordering::Less);
    let six_high_flush = 0x1_1111u64 << 1;
    let seven_high_flush = 0x11_1110u64 << 2;
    assert_eq!(compare_hands(seven_high_flush, six_high_flush), Ordering::Greater);
    assert_eq!(compare_hands(six_high_flush, 0x1_1111), Ordering::Equal);
}

#[test]
fn within_a_category_the_ranks_decide() {
    let kings_over_twos = cards([
        (Rank::King, SPADES),
        (Rank::King, HEARTS),
        (Rank::King, DIAMONDS),
        (Rank::Two, SPADES),
        (Rank::Two, HEARTS),
    ]);
    let kings_over_threes = cards([
        (Rank::King, SPADES),
        (Rank::King, HEARTS),
        (Rank::King, CLUBS),
        (Rank::Three, SPADES),
        (Rank::Three, HEARTS),
    ]);
    let queens_over_aces = cards([
        (Rank::Queen, SPADES),
        (Rank::Queen, HEARTS),
        (Rank::Queen, CLUBS),
        (Rank::Ace, SPADES),
        (Rank::Ace, HEARTS),
    ]);
    assert_eq!(compare_hands(kings_over_threes, kings_over_twos), Ordering::Greater);
    assert_eq!(compare_hands(kings_over_twos, queens_over_aces), Ordering::Greater);
    let jacks_and_fours = cards([
        (Rank::Four, HEARTS),
        (Rank::Four, CLUBS),
        (Rank::Jack, SPADES),
        (Rank::Jack, HEARTS),
        (Rank::Ace, DIAMONDS),
    ]);
    let jacks_and_fives = cards([
        (Rank::Five, HEARTS),
        (Rank::Five, CLUBS),
        (Rank::Jack, DIAMONDS),
        (Rank::Jack, CLUBS),
        (Rank::Two, DIAMONDS),
    ]);
    let tens_and_nines = cards([
        (Rank::Ten, HEARTS),
        (Rank::Ten, CLUBS),
        (Rank::Nine, DIAMONDS),
        (Rank::Nine, CLUBS),
        (Rank::Ace, CLUBS),
    ]);
    assert_eq!(compare_hands(jacks_and_fives, jacks_and_fours), Ordering::Greater);
    assert_eq!(compare_hands(jacks_and_fours, tens_and_nines), Ordering::Greater);
}

#[test]
fn where_the_ranks_of_a_category_tie_the_high_card_decides() {
    let nines_king = cards([
        (Rank::Nine, HEARTS),
        (Rank::Nine, CLUBS),
        (Rank::Nine, SPADES),
        (Rank::King, HEARTS),
        (Rank::Two, DIAMONDS),
    ]);
    let nines_queen = cards([
        (Rank::Nine, HEARTS),
        (Rank::Nine, CLUBS),
        (Rank::Nine, DIAMONDS),
        (Rank::Queen, HEARTS),
        (Rank::Jack, DIAMONDS),
    ]);
    assert_eq!(compare_hands(nines_king, nines_queen), Ordering::Greater);
    assert_eq!(compare_hands(nines_queen, nines_king), Ordering::Less);
}

#[test]
fn cards_below_the_high_card_are_not_compared() {
    let nines_king_two = cards([
        (Rank::Nine, HEARTS),
        (Rank::Nine, CLUBS),
        (Rank::Nine, SPADES),
        (Rank::King, HEARTS),
        (Rank::Two, DIAMONDS),
    ]);
    let nines_king_queen = cards([
        (Rank::Nine, HEARTS),
        (Rank::Nine, CLUBS),
        (Rank::Nine, DIAMONDS),
        (Rank::King, SPADES),
        (Rank::Queen, DIAMONDS),
    ]);
    assert_eq!(compare_hands(nines_king_two, nines_king_queen), Ordering::Equal);
    let ace_high = cards([
        (Rank::Ace, HEARTS),
        (Rank::Nine, CLUBS),
        (Rank::Jack, SPADES),
        (Rank::King, HEARTS),
        (Rank::Queen, DIAMONDS),
    ]);
    let ace_low = cards([
        (Rank::Ace, SPADES),
        (Rank::Two, CLUBS),
        (Rank::Three, SPADES),
        (Rank::Four, HEARTS),
        (Rank::Six, DIAMONDS),
    ]);
    assert_eq!(compare_hands(ace_high, ace_low), Ordering::Equal);
    assert_eq!(hand_strength(ace_high), hand_strength(ace_low));
}

#[test]
fn every_hand_equals_itself() {
    for hand in sample() {
        assert_eq!(compare_hands(hand, hand), Ordering::Equal);
    }
}

#[test]
fn swapping_the_hands_reverses_the_order() {
    let hands = sample();
    for a in hands.iter() {
        for b in hands.iter() {
            assert_eq!(compare_hands(*b, *a), compare_hands(*a, *b).reverse());
        }
    }
}

#[test]
fn the_order_is_transitive() {
    let hands = sample();
    for a in hands.iter() {
        for b in hands.iter() {
            if compare_hands(*a, *b) == Ordering::Less {
                continue;
            }
            for c in hands.iter() {
                if compare_hands(*b, *c) == Ordering::Less {
                    continue;
                }
                assert_ne!(compare_hands(*a, *c), Ordering::Less);
            }
        }
    }
}

#[test]
fn the_strength_orders_as_compare_hands_does() {
    let hands = sample();
    for a in hands.iter() {
        for b in hands.iter() {
            assert_eq!(hand_strength(*a).cmp(&hand_strength(*b)), compare_hands(*a, *b));
        }
    }
}

#[test]
fn the_strength_holds_the_categories_as_digits() {
    let royal_flush = 0x1_1111_0000_0000u64;
    assert_eq!(hand_strength(royal_flush), 0xD00_01D0_000D);
    let kings_over_twos = cards([
        (Rank::King, SPADES),
        (Rank::King, HEARTS),
        (Rank::King, DIAMONDS),
        (Rank::Two, SPADES),
        (Rank::Two, HEARTS),
    ]);
    assert_eq!(hand_strength(kings_over_twos), 0xC_100C_001C);
    let jacks_and_fours = cards([
        (Rank::Four, HEARTS),
        (Rank::Four, CLUBS),
        (Rank::Jack, SPADES),
        (Rank::Jack, HEARTS),
        (Rank::Ace, DIAMONDS),
    ]);
    assert_eq!(hand_strength(jacks_and_fours), 0x000_0000_A3AD);
    assert_eq!(hand_strength(0x88_8804), 0x6);
}
